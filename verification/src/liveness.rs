//! Which objects of a context are live.
//!
//! An object is live as long as something holds it: a value in hand, a task that waits, a module, a
//! frame that is itself held, or another live object. Objects that hold one another in a circle
//! stay live until their fields are cleared.

use crate::ast::views;
use crate::table::{Rows, Table};
use crate::value::{lemma_item_decreases, lemma_value_view, Fun, Functions, Val, ZapValue};
use crate::world::{ExecutionContext, TaskState, World};
use vstd::prelude::*;

verus! {

/// Something that can be held: an object, or a frame.
pub enum Ref {
    Cell(usize),
    Frame(usize),
}

/// Whether a value holds something: an object, or the frame that a function closes over.
pub open spec fn refers(v: Val, n: Ref) -> bool
    decreases v, 0int,
{
    match v {
        Val::Object { id, .. } => n == Ref::Cell(id),
        Val::Callable(f) => n == Ref::Frame(f.closure),
        Val::List(items) => some_refer(items, items.len() as int, n),
        Val::Dict(rows) => some_rows_refer(rows, rows.len() as int, n),
        Val::ResultOk(inner) => refers(*inner, n),
        Val::ResultErr(inner) => refers(*inner, n),
        Val::OptionSome(inner) => refers(*inner, n),
        Val::Future(inner) => refers(*inner, n),
        _ => false,
    }
}

/// Whether one of the first `count` values holds something.
pub open spec fn some_refer(values: Seq<Val>, count: int, n: Ref) -> bool
    decreases values, count,
{
    0 < count <= values.len() && (refers(values[count - 1], n) || some_refer(values, count - 1, n))
}

pub open spec fn values_refer(values: Seq<Val>, n: Ref) -> bool {
    some_refer(values, values.len() as int, n)
}

/// Whether the value of one of the first `count` entries holds something.
pub open spec fn some_rows_refer(rows: Rows<Val>, count: int, n: Ref) -> bool
    decreases rows, count,
{
    0 < count <= rows.len() && (refers(rows[count - 1].1, n) || some_rows_refer(
        rows,
        count - 1,
        n,
    ))
}

pub open spec fn rows_refer(rows: Rows<Val>, n: Ref) -> bool {
    some_rows_refer(rows, rows.len() as int, n)
}

/// Whether one of the first `count` functions closes over a frame.
pub open spec fn some_close_over(funcs: Rows<Fun>, count: int, n: Ref) -> bool {
    exists|i: int| 0 <= i < count && n == Ref::Frame((#[trigger] funcs[i]).1.closure)
}

pub open spec fn funcs_refer(funcs: Rows<Fun>, n: Ref) -> bool {
    some_close_over(funcs, funcs.len() as int, n)
}

/// Whether one of the first `count` frames of a list is the one in question.
pub open spec fn some_frame(frames: Seq<usize>, count: int, n: Ref) -> bool {
    exists|i: int| 0 <= i < count && n == Ref::Frame(#[trigger] frames[i])
}

pub open spec fn hand_holds(w: World, h: int, n: Ref) -> bool {
    values_refer(w.hands[h].values, n) || some_frame(
        w.hands[h].frames,
        w.hands[h].frames.len() as int,
        n,
    )
}

pub open spec fn task_holds(w: World, t: int, n: Ref) -> bool {
    w.tasks[t].state == TaskState::Scheduled && refers(w.tasks[t].value, n)
}

pub open spec fn module_holds(w: World, m: int, n: Ref) -> bool {
    rows_refer(w.modules[m].1.vars, n) || funcs_refer(w.modules[m].1.funcs, n)
}

pub open spec fn hands_hold(w: World, count: int, n: Ref) -> bool {
    exists|h: int| 0 <= h < count && #[trigger] hand_holds(w, h, n)
}

pub open spec fn tasks_hold(w: World, count: int, n: Ref) -> bool {
    exists|t: int| 0 <= t < count && #[trigger] task_holds(w, t, n)
}

pub open spec fn modules_hold(w: World, count: int, n: Ref) -> bool {
    exists|m: int| 0 <= m < count && #[trigger] module_holds(w, m, n)
}

/// Whether something is held from outside the objects and frames.
pub open spec fn rooted(w: World, n: Ref) -> bool {
    ||| hands_hold(w, w.hands.len() as int, n)
    ||| tasks_hold(w, w.tasks.len() as int, n)
    ||| modules_hold(w, w.modules.len() as int, n)
}

/// Whether an object or a frame holds another one.
pub open spec fn holds(w: World, m: Ref, n: Ref) -> bool {
    match m {
        Ref::Cell(c) => c < w.cells.len() && rows_refer(w.cells[c as int].fields, n),
        Ref::Frame(f) => f < w.frames.len() && (rows_refer(w.frames[f as int].names, n) || (
        w.frames[f as int].parent matches Some(p) && n == Ref::Frame(p))),
    }
}

pub open spec fn known(w: World, n: Ref) -> bool {
    match n {
        Ref::Cell(c) => c < w.cells.len(),
        Ref::Frame(f) => f < w.frames.len(),
    }
}

/// A set in which everything is held, from outside or from within the set.
pub open spec fn sustained(w: World, s: Set<Ref>) -> bool {
    forall|n: Ref| #[trigger]
        s.contains(n) ==> known(w, n) && (rooted(w, n) || exists|m: Ref| #[trigger]
            s.contains(m) && holds(w, m, n))
}

pub open spec fn live(w: World, n: Ref) -> bool {
    exists|s: Set<Ref>| #[trigger] sustained(w, s) && s.contains(n)
}

/// The number of live objects among those before number `count`.
pub open spec fn live_below(w: World, count: nat) -> nat
    decreases count,
{
    if count == 0 {
        0
    } else {
        live_below(w, (count - 1) as nat) + if live(w, Ref::Cell((count - 1) as usize)) {
            1nat
        } else {
            0nat
        }
    }
}

pub open spec fn live_objects(w: World) -> nat {
    live_below(w, w.cells.len())
}

// ---------------------------------------------------------------------------
// Marks
// ---------------------------------------------------------------------------

struct Marks {
    cells: Vec<bool>,
    frames: Vec<bool>,
}

spec fn fits(m: Marks, n: Ref) -> bool {
    match n {
        Ref::Cell(c) => c < m.cells@.len(),
        Ref::Frame(f) => f < m.frames@.len(),
    }
}

spec fn marked(m: Marks, n: Ref) -> bool {
    match n {
        Ref::Cell(c) => c < m.cells@.len() && m.cells@[c as int],
        Ref::Frame(f) => f < m.frames@.len() && m.frames@[f as int],
    }
}

/// The marks have the same size, and those that are new are the ones that `added` names.
spec fn marks_grow(a: Marks, b: Marks, added: spec_fn(Ref) -> bool) -> bool {
    &&& b.cells@.len() == a.cells@.len()
    &&& b.frames@.len() == a.frames@.len()
    &&& forall|n: Ref| #[trigger] marked(b, n) == (marked(a, n) || (fits(a, n) && added(n)))
}

fn mark_cell(id: usize, marks: &mut Marks)
    ensures
        marks_grow(*old(marks), *final(marks), |n: Ref| n == Ref::Cell(id)),
{
    if id < marks.cells.len() {
        marks.cells.set(id, true);
    }
}

fn mark_frame(id: usize, marks: &mut Marks)
    ensures
        marks_grow(*old(marks), *final(marks), |n: Ref| n == Ref::Frame(id)),
{
    if id < marks.frames.len() {
        marks.frames.set(id, true);
    }
}

fn mark_value(v: &ZapValue, marks: &mut Marks)
    ensures
        marks_grow(*old(marks), *final(marks), |n: Ref| refers(v@, n)),
    decreases v,
{
    broadcast use lemma_value_view;

    match v {
        ZapValue::Object { id, .. } => mark_cell(*id, marks),
        ZapValue::Callable(function) => mark_frame(function.closure, marks),
        ZapValue::List(items) => {
            let mut i: usize = 0;
            while i < items.len()
                invariant
                    i <= items@.len(),
                    v == ZapValue::List(*items),
                    v@ == Val::List(views(items@)),
                    marks_grow(
                        *old(marks),
                        *marks,
                        |n: Ref| some_refer(views(items@), i as int, n),
                    ),
                decreases items.len() - i,
            {
                proof {
                    lemma_item_decreases(v, i as int);
                }
                assert(views(items@)[i as int] == items@[i as int]@);
                mark_value(&items[i], marks);
                i += 1;
            }
        },
        ZapValue::Dict(table) => {
            let mut i: usize = 0;
            while i < table.entries.len()
                invariant
                    i <= table.entries@.len(),
                    v == ZapValue::Dict(*table),
                    v@ == Val::Dict(table@),
                    marks_grow(
                        *old(marks),
                        *marks,
                        |n: Ref| some_rows_refer(table@, i as int, n),
                    ),
                decreases table.entries.len() - i,
            {
                proof {
                    lemma_item_decreases(v, i as int);
                }
                assert(table@[i as int].1 == table.entries@[i as int].1@);
                mark_value(&table.entries[i].1, marks);
                i += 1;
            }
        },
        ZapValue::ResultOk(inner) => mark_value(&**inner, marks),
        ZapValue::ResultErr(inner) => mark_value(&**inner, marks),
        ZapValue::OptionSome(inner) => mark_value(&**inner, marks),
        ZapValue::Future(inner) => mark_value(&**inner, marks),
        _ => {},
    }
}

fn mark_rows(table: &Table<ZapValue>, marks: &mut Marks)
    ensures
        marks_grow(*old(marks), *final(marks), |n: Ref| rows_refer(table@, n)),
{
    let mut i: usize = 0;
    while i < table.entries.len()
        invariant
            i <= table.entries@.len(),
            marks_grow(*old(marks), *marks, |n: Ref| some_rows_refer(table@, i as int, n)),
        decreases table.entries.len() - i,
    {
        assert(table@[i as int].1 == table.entries@[i as int].1@);
        mark_value(&table.entries[i].1, marks);
        i += 1;
    }
}

fn mark_functions(funcs: &Functions, marks: &mut Marks)
    ensures
        marks_grow(*old(marks), *final(marks), |n: Ref| funcs_refer(funcs@, n)),
{
    let mut i: usize = 0;
    while i < funcs.entries.len()
        invariant
            i <= funcs.entries@.len(),
            marks_grow(*old(marks), *marks, |n: Ref| some_close_over(funcs@, i as int, n)),
        decreases funcs.entries.len() - i,
    {
        assert(funcs@[i as int].1 == funcs.entries@[i as int].1@);
        mark_frame(funcs.entries[i].1.closure, marks);
        i += 1;
    }
}

// ---------------------------------------------------------------------------
// One round: what is held, given what is left
// ---------------------------------------------------------------------------

fn mark_hand(context: &ExecutionContext, h: usize, marks: &mut Marks)
    requires
        h < context@.hands.len(),
    ensures
        marks_grow(*old(marks), *final(marks), |n: Ref| hand_holds(context@, h as int, n)),
{
    let hand = &context.hands[h];
    let ghost values = context@.hands[h as int].values;
    assert(context@.hands[h as int] == hand@);
    let items: &Vec<ZapValue> = &*hand.values;
    let mut i: usize = hand.from;
    if i <= items.len() {
        assert(values == views(items@).skip(i as int));
    }
    while i < items.len()
        invariant
            i <= items@.len() ==> hand.from <= i,
            hand.from <= items@.len() ==> i <= items@.len() && values == views(items@).skip(
                hand.from as int,
            ),
            hand.from > items@.len() ==> i == hand.from && values.len() == 0,
            *items == *hand.values,
            i >= hand.from,
            marks_grow(*old(marks), *marks, |n: Ref| some_refer(values, i - hand.from, n)),
        decreases items.len() - i,
    {
        assert(values[i - hand.from] == items@[i as int]@);
        mark_value(&items[i], marks);
        i += 1;
    }
    let ghost middle = *marks;
    assert(marks_grow(*old(marks), middle, |n: Ref| values_refer(values, n)));
    let mut k: usize = 0;
    while k < hand.frames.len()
        invariant
            k <= hand.frames@.len(),
            marks_grow(middle, *marks, |n: Ref| some_frame(hand.frames@, k as int, n)),
        decreases hand.frames.len() - k,
    {
        mark_frame(hand.frames[k], marks);
        k += 1;
    }
}

fn mark_roots(context: &ExecutionContext, marks: &mut Marks)
    ensures
        marks_grow(*old(marks), *final(marks), |n: Ref| rooted(context@, n)),
{
    let mut h: usize = 0;
    while h < context.hands.len()
        invariant
            h <= context.hands@.len(),
            marks_grow(*old(marks), *marks, |n: Ref| hands_hold(context@, h as int, n)),
        decreases context.hands.len() - h,
    {
        mark_hand(context, h, marks);
        h += 1;
    }
    let ghost first = *marks;
    let mut t: usize = 0;
    while t < context.tasks.len()
        invariant
            t <= context.tasks@.len(),
            marks_grow(first, *marks, |n: Ref| tasks_hold(context@, t as int, n)),
        decreases context.tasks.len() - t,
    {
        let ghost before = *marks;
        assert(context@.tasks[t as int] == context.tasks@[t as int]@);
        if context.tasks[t].state == TaskState::Scheduled {
            mark_value(&context.tasks[t].value, marks);
        }
        assert forall|n: Ref| #[trigger] marked(*marks, n) == (marked(first, n) || (fits(first, n)
            && tasks_hold(context@, t + 1, n))) by {
            assert(marked(before, n) == (marked(first, n) || (fits(first, n) && tasks_hold(
                context@,
                t as int,
                n,
            ))));
            assert(tasks_hold(context@, t + 1, n) == (tasks_hold(context@, t as int, n)
                || task_holds(context@, t as int, n)));
        }
        t += 1;
    }
    let ghost second = *marks;
    let mut m: usize = 0;
    while m < context.modules.entries.len()
        invariant
            m <= context.modules.entries@.len(),
            marks_grow(second, *marks, |n: Ref| modules_hold(context@, m as int, n)),
        decreases context.modules.entries.len() - m,
    {
        let ghost before = *marks;
        assert(context@.modules[m as int].1 == context.modules.entries@[m as int].1@);
        mark_rows(&context.modules.entries[m].1.vars, marks);
        let ghost middle = *marks;
        mark_functions(&context.modules.entries[m].1.funcs, marks);
        assert forall|n: Ref| #[trigger] marked(*marks, n) == (marked(second, n) || (fits(second, n)
            && modules_hold(context@, m + 1, n))) by {
            assert(marked(before, n) == (marked(second, n) || (fits(second, n) && modules_hold(
                context@,
                m as int,
                n,
            ))));
            assert(marked(middle, n) == (marked(before, n) || (fits(before, n) && rows_refer(
                context@.modules[m as int].1.vars,
                n,
            ))));
            assert(modules_hold(context@, m + 1, n) == (modules_hold(context@, m as int, n)
                || module_holds(context@, m as int, n)));
        }
        m += 1;
    }
}

/// Whether something that is left holds it.
spec fn held_within(w: World, left: Marks, cells: int, frames: int, n: Ref) -> bool {
    ||| exists|c: usize| c < cells && #[trigger] marked(left, Ref::Cell(c)) && holds(
        w,
        Ref::Cell(c),
        n,
    )
    ||| exists|f: usize| f < frames && #[trigger] marked(left, Ref::Frame(f)) && holds(
        w,
        Ref::Frame(f),
        n,
    )
}

fn mark_held(context: &ExecutionContext, left: &Marks) -> (r: Marks)
    requires
        left.cells@.len() == context@.cells.len(),
        left.frames@.len() == context@.frames.len(),
    ensures
        r.cells@.len() == context@.cells.len(),
        r.frames@.len() == context@.frames.len(),
        forall|n: Ref| #[trigger]
            marked(r, n) ==> rooted(context@, n) || exists|m: Ref| #[trigger]
                marked(*left, m) && holds(context@, m, n),
        forall|n: Ref|
            #![trigger marked(r, n)]
            known(context@, n) && rooted(context@, n) ==> marked(r, n),
        forall|n: Ref, m: Ref|
            #![trigger marked(r, n), marked(*left, m)]
            known(context@, n) && marked(*left, m) && holds(context@, m, n) ==> marked(r, n),
{
    let mut marks = Marks {
        cells: filled(context.cells.len(), false),
        frames: filled(context.frames.len(), false),
    };
    let ghost none = marks;
    assert(forall|n: Ref| !marked(none, n));
    mark_roots(context, &mut marks);
    let ghost first = marks;
    let mut c: usize = 0;
    while c < context.cells.len()
        invariant
            c <= context.cells@.len(),
            left.cells@.len() == context@.cells.len(),
            left.frames@.len() == context@.frames.len(),
            marks_grow(first, marks, |n: Ref| held_within(context@, *left, c as int, 0, n)),
        decreases context.cells.len() - c,
    {
        let ghost before = marks;
        assert(context@.cells[c as int] == context.cells@[c as int]@);
        if left.cells[c] {
            mark_rows(&context.cells[c].fields, &mut marks);
        }
        proof {
            let added = |n: Ref| held_within(context@, *left, c + 1, 0, n);
            assert forall|n: Ref| #[trigger] marked(marks, n) == (marked(first, n) || (fits(first, n)
                && added(n))) by {
                let earlier = held_within(context@, *left, c as int, 0, n);
                assert(marked(*left, Ref::Cell(c)) == left.cells@[c as int]);
                assert(held_within(context@, *left, c + 1, 0, n) == (earlier || (marked(
                    *left,
                    Ref::Cell(c),
                ) && holds(context@, Ref::Cell(c), n))));
                assert(marked(before, n) == (marked(first, n) || (fits(first, n) && earlier)));
            }
        }
        c += 1;
    }
    let ghost second = marks;
    let ghost cells = c as int;
    let mut f: usize = 0;
    while f < context.frames.len()
        invariant
            f <= context.frames@.len(),
            left.cells@.len() == context@.cells.len(),
            left.frames@.len() == context@.frames.len(),
            marks_grow(second, marks, |n: Ref| held_within(context@, *left, 0, f as int, n)),
        decreases context.frames.len() - f,
    {
        let ghost before = marks;
        assert(context@.frames[f as int] == context.frames@[f as int]@);
        if left.frames[f] {
            mark_rows(&context.frames[f].names, &mut marks);
            if let Some(parent) = context.frames[f].parent {
                mark_frame(parent, &mut marks);
            }
        }
        proof {
            let added = |n: Ref| held_within(context@, *left, 0, f + 1, n);
            assert forall|n: Ref| #[trigger] marked(marks, n) == (marked(second, n) || (fits(
                second,
                n,
            ) && added(n))) by {
                let earlier = held_within(context@, *left, 0, f as int, n);
                assert(marked(*left, Ref::Frame(f)) == left.frames@[f as int]);
                assert(held_within(context@, *left, 0, f + 1, n) == (earlier || (marked(
                    *left,
                    Ref::Frame(f),
                ) && holds(context@, Ref::Frame(f), n))));
                assert(marked(before, n) == (marked(second, n) || (fits(second, n) && earlier)));
            }
        }
        f += 1;
    }
    proof {
        let w = context@;
        assert forall|n: Ref, m: Ref|
            #![trigger marked(marks, n), marked(*left, m)]
            known(w, n) && marked(*left, m) && holds(w, m, n) implies marked(marks, n) by {
            match m {
                Ref::Cell(x) => {
                    assert(held_within(w, *left, cells, 0, n));
                    assert(marked(second, n));
                },
                Ref::Frame(x) => {
                    assert(held_within(w, *left, 0, f as int, n));
                },
            }
        }
        assert forall|n: Ref|
            #![trigger marked(marks, n)]
            known(w, n) && rooted(w, n) implies marked(marks, n) by {
            assert(marked(first, n));
            assert(marked(second, n));
        }
        assert forall|n: Ref| #[trigger] marked(marks, n) implies rooted(w, n) || exists|m: Ref|
            #[trigger] marked(*left, m) && holds(w, m, n) by {
            assert(marked(second, n) || held_within(w, *left, 0, f as int, n));
            assert(marked(second, n) ==> marked(first, n) || held_within(w, *left, cells, 0, n));
            assert(marked(first, n) ==> marked(none, n) || rooted(w, n));
        }
    }
    marks
}

fn filled(count: usize, mark: bool) -> (r: Vec<bool>)
    ensures
        r@.len() == count,
        forall|i: int| 0 <= i < count ==> r@[i] == mark,
{
    let mut out: Vec<bool> = Vec::new();
    while out.len() < count
        invariant
            out@.len() <= count,
            forall|i: int| 0 <= i < out@.len() ==> out@[i] == mark,
        decreases count - out.len(),
    {
        out.push(mark);
    }
    out
}

// ---------------------------------------------------------------------------
// All rounds
// ---------------------------------------------------------------------------

spec fn trues(s: Seq<bool>) -> nat
    decreases s.len(),
{
    if s.len() == 0 {
        0
    } else {
        trues(s.drop_last()) + if s.last() {
            1nat
        } else {
            0nat
        }
    }
}

/// What is marked on both sides, and whether that is less than on the left one.
fn both(a: &Vec<bool>, b: &Vec<bool>) -> (r: (Vec<bool>, bool))
    requires
        a@.len() == b@.len(),
    ensures
        r.0@.len() == a@.len(),
        forall|i: int| 0 <= i < a@.len() ==> #[trigger] r.0@[i] == (a@[i] && b@[i]),
        !r.1 ==> r.0@ == a@,
        trues(r.0@) <= trues(a@),
        r.1 ==> trues(r.0@) < trues(a@),
{
    let mut out: Vec<bool> = Vec::new();
    let mut less = false;
    let mut i: usize = 0;
    while i < a.len()
        invariant
            i <= a@.len(),
            a@.len() == b@.len(),
            out@.len() == i,
            forall|j: int| 0 <= j < i ==> #[trigger] out@[j] == (a@[j] && b@[j]),
            !less ==> out@ == a@.take(i as int),
            trues(out@) <= trues(a@.take(i as int)),
            less ==> trues(out@) < trues(a@.take(i as int)),
        decreases a.len() - i,
    {
        let ghost before = out@;
        out.push(a[i] && b[i]);
        if a[i] && !b[i] {
            less = true;
        }
        assert(a@.take(i + 1).drop_last() =~= a@.take(i as int));
        assert(out@.drop_last() =~= before);
        assert(!less ==> out@ =~= a@.take(i + 1));
        i += 1;
    }
    assert(a@.take(i as int) =~= a@);
    (out, less)
}

/// The number of live objects: what nothing holds is taken away, until everything is held.
pub fn count_live(context: &ExecutionContext) -> (r: usize)
    ensures
        r == live_objects(context@),
{
    let ghost w = context@;
    let mut left = Marks {
        cells: filled(context.cells.len(), true),
        frames: filled(context.frames.len(), true),
    };
    let mut going = true;
    while going
        invariant
            w == context@,
            left.cells@.len() == w.cells.len(),
            left.frames@.len() == w.frames.len(),
            forall|s: Set<Ref>, n: Ref| #[trigger]
                sustained(w, s) && #[trigger] s.contains(n) ==> marked(left, n),
            !going ==> sustained(w, Set::new(|n: Ref| marked(left, n))),
        decreases
                trues(left.cells@) + trues(left.frames@) + if going {
                    1nat
                } else {
                    0nat
                },
    {
        let held = mark_held(context, &left);
        let (cells, fewer_cells) = both(&left.cells, &held.cells);
        let (frames, fewer_frames) = both(&left.frames, &held.frames);
        let next = Marks { cells, frames };
        proof {
            assert(forall|n: Ref| #[trigger]
                marked(next, n) == (marked(left, n) && marked(held, n)));
            assert forall|s: Set<Ref>, n: Ref| #[trigger]
                sustained(w, s) && #[trigger] s.contains(n) implies marked(next, n) by {
                assert(marked(left, n));
                if !rooted(w, n) {
                    let m = choose|m: Ref| #[trigger] s.contains(m) && holds(w, m, n);
                    assert(marked(left, m));
                }
                assert(marked(held, n));
            }
            if !fewer_cells && !fewer_frames {
                let s = Set::new(|n: Ref| marked(next, n));
                assert forall|n: Ref| #[trigger] s.contains(n) implies known(w, n) && (rooted(w, n)
                    || exists|m: Ref| #[trigger] s.contains(m) && holds(w, m, n)) by {
                    assert(marked(next, n));
                    assert(marked(held, n));
                    if !rooted(w, n) {
                        let m = choose|m: Ref| #[trigger] marked(left, m) && holds(w, m, n);
                        assert(marked(next, m));
                        assert(s.contains(m));
                    }
                }
            }
        }
        going = fewer_cells || fewer_frames;
        left = next;
    }
    let ghost all = Set::new(|n: Ref| marked(left, n));
    assert forall|n: Ref| marked(left, n) == #[trigger] live(w, n) by {
        if marked(left, n) {
            assert(sustained(w, all) && all.contains(n));
        }
    }
    let mut count: usize = 0;
    let mut i: usize = 0;
    while i < context.cells.len()
        invariant
            w == context@,
            i <= w.cells.len(),
            count <= i,
            count == live_below(w, i as nat),
            left.cells@.len() == w.cells.len(),
            forall|n: Ref| marked(left, n) == #[trigger] live(w, n),
        decreases context.cells.len() - i,
    {
        assert(live(w, Ref::Cell(i)) == marked(left, Ref::Cell(i)));
        if left.cells[i] {
            count += 1;
        }
        i += 1;
    }
    count
}

} // verus!
