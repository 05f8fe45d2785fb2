//! How a context keeps its books: budgets and costs, limits of values, frames, objects, the host's
//! replies and the levels of execution.

use crate::laws::frames_ordered;
use crate::runtime::{admitted, call_cost};
use crate::semantics::{charged, charged_whole};
use crate::table::{
    get, lemma_get_put_other, lemma_get_put_same, lemma_put_ordered, ordered, put, put_all_from,
    Rows,
};
use crate::text::{size, Str};
use crate::value::{
    audit, audit_items, audit_rows, cost, items_cost, rows_cost, shallow_cost, within_limits, Val,
};
use crate::world::{
    ask, assign, assign_all, base_of, clear_fields, enter_level, extend_fields, fields_of, fresh,
    holder, insert_local, leave_level, lookup, new_frame, new_object, parent_of, reserve_bytes,
    reserve_output, say, CallM, FrameM, World,
};
use vstd::prelude::*;

verus! {

// ---------------------------------------------------------------------------
// Budgets
// ---------------------------------------------------------------------------

/// A run begins with nothing used and with the default limits: 1 GiB of values, 1024 tasks, 256
/// MiB of output.
pub proof fn law_runs_begin_with_nothing_used()
    ensures
        fresh().budget.max_bytes == 1_073_741_824,
        fresh().budget.max_tasks == 1_024,
        fresh().budget.max_output == 268_435_456,
        fresh().budget.bytes == 0,
        fresh().budget.tasks == 0,
        fresh().budget.output == 0,
        fresh().depth == 0,
        fresh().output.len() == 0,
        fresh().frames.len() == 0,
        fresh().cells.len() == 0,
        fresh().workspace is None,
        fresh().pending is None,
        !fresh().untrusted,
{
}

/// Bytes are taken from the budget if and only if there are enough left, and then exactly as many
/// as were asked for; a request that is refused takes nothing.
pub proof fn law_budgets_are_charged_exactly(w: World, n: u64)
    ensures
        reserve_bytes(w, n).0 is Ok <==> w.budget.bytes + n <= w.budget.max_bytes,
        reserve_bytes(w, n).0 is Ok ==> reserve_bytes(w, n).1.budget.bytes == w.budget.bytes + n
            && reserve_bytes(w, n).1.budget.output == w.budget.output && reserve_bytes(
            w,
            n,
        ).1.budget.tasks == w.budget.tasks,
        reserve_bytes(w, n).0 is Err ==> reserve_bytes(w, n).1 == w,
        reserve_output(w, n).0 is Ok <==> w.budget.output + n <= w.budget.max_output,
        reserve_output(w, n).0 is Ok ==> reserve_output(w, n).1.budget.output == w.budget.output + n
            && reserve_output(w, n).1.budget.bytes == w.budget.bytes && reserve_output(
            w,
            n,
        ).1.budget.tasks == w.budget.tasks,
        reserve_output(w, n).0 is Err ==> reserve_output(w, n).1 == w,
{
}

/// What each value costs by itself: 8 bytes for a plain value, 16 and its bytes for a text, 24 and
/// 8 for each item of a list, 32 and 16 for each entry of a map, 96 and its class name for an
/// object, 16 for anything that wraps a value.
pub proof fn law_costs(v: Val)
    ensures
        v is Nil || v is Bool || v is Number ==> shallow_cost(v) == 8 && cost(v) == 8,
        v is Text && size(v->Text_0) <= 0xffff_ffff ==> shallow_cost(v) == 16 + size(v->Text_0)
            && cost(v) == 16 + size(v->Text_0),
        v is List && v->List_0.len() <= 0xffff_ffff ==> shallow_cost(v) == 24 + 8
            * v->List_0.len(),
        v is Dict && v->Dict_0.len() <= 0xffff_ffff ==> shallow_cost(v) == 32 + 16
            * v->Dict_0.len(),
        v is Object && size(v->class_name) <= 0xffff_ffff ==> shallow_cost(v) == 96 + size(
            v->class_name,
        ),
        v is ResultOk || v is ResultErr || v is OptionSome || v is OptionNone || v is Future
            ==> shallow_cost(v) == 16,
        v is ResultOk && cost(*v->ResultOk_0) <= 0xffff_ffff ==> cost(v) == 16 + cost(
            *v->ResultOk_0,
        ),
        v is ResultErr && cost(*v->ResultErr_0) <= 0xffff_ffff ==> cost(v) == 16 + cost(
            *v->ResultErr_0,
        ),
        v is OptionSome && cost(*v->OptionSome_0) <= 0xffff_ffff ==> cost(v) == 16 + cost(
            *v->OptionSome_0,
        ),
{
}

proof fn lemma_items_cost(items: Seq<Val>, n: nat, k: int)
    requires
        0 <= k < n <= items.len(),
    ensures
        items_cost(items, n) >= cost(items[k]),
    decreases n,
{
    if k < n - 1 {
        lemma_items_cost(items, (n - 1) as nat, k);
    }
}

proof fn lemma_rows_cost(rows: Seq<(Str, Val)>, n: nat, k: int)
    requires
        0 <= k < n <= rows.len(),
    ensures
        rows_cost(rows, n) >= cost(rows[k].1),
    decreases n,
{
    if k < n - 1 {
        lemma_rows_cost(rows, (n - 1) as nat, k);
    }
}

/// A list costs at least what each of its items costs, and a map at least what each of its values
/// costs; a list of one item costs 32 bytes beside the item.
pub proof fn law_collections_cost_what_they_hold(items: Seq<Val>, rows: Rows<Val>, k: int)
    ensures
        0 <= k < items.len() ==> cost(Val::List(items)) >= cost(items[k]),
        0 <= k < rows.len() ==> cost(Val::Dict(rows)) >= cost(rows[k].1),
        items.len() == 1 && cost(items[0]) <= 0xffff_ffff ==> cost(Val::List(items)) == 32 + cost(
            items[0],
        ),
        cost(Val::List(Seq::empty())) == 24,
        cost(Val::Dict(Seq::empty())) == 32,
{
    if 0 <= k < items.len() {
        lemma_items_cost(items, items.len(), k);
    }
    if 0 <= k < rows.len() {
        lemma_rows_cost(rows, rows.len(), k);
    }
    reveal_with_fuel(items_cost, 3);
    reveal_with_fuel(rows_cost, 3);
    reveal_with_fuel(cost, 3);
}

// ---------------------------------------------------------------------------
// Limits of values
// ---------------------------------------------------------------------------

/// A text is within the limits up to 16 MiB; a plain value always is.
pub proof fn law_limits_of_plain_values(v: Val)
    ensures
        v is Text ==> (within_limits(v) is Ok <==> size(v->Text_0) <= 16_777_216),
        v is Nil || v is Bool || v is Number || v is OptionNone ==> within_limits(v) is Ok,
{
}

proof fn lemma_audit_items(items: Seq<Val>, i: nat, depth: nat, nodes: nat, k: int)
    requires
        audit_items(items, i, depth, nodes) is Ok,
        i <= k < items.len(),
    ensures
        exists|n: nat| (#[trigger] audit(items[k], depth, n)) is Ok,
    decreases items.len() - i,
{
    if i < k {
        lemma_audit_items(items, i + 1, depth, audit(items[i as int], depth, nodes)->Ok_0, k);
    } else {
        assert(audit(items[k], depth, nodes) is Ok);
    }
}

proof fn lemma_audit_rows(rows: Seq<(Str, Val)>, i: nat, depth: nat, nodes: nat, k: int)
    requires
        audit_rows(rows, i, depth, nodes) is Ok,
        i <= k < rows.len(),
    ensures
        exists|n: nat| (#[trigger] audit(rows[k].1, depth, n)) is Ok,
    decreases rows.len() - i,
{
    if i < k {
        lemma_audit_rows(rows, i + 1, depth, audit(rows[i as int].1, depth, nodes)->Ok_0, k);
    } else {
        assert(audit(rows[k].1, depth, nodes) is Ok);
    }
}

/// A list or a map within the limits has at most 100000 items, and each text in it is within the
/// limit on texts.
pub proof fn law_limits_of_collections(items: Seq<Val>, rows: Rows<Val>, k: int)
    ensures
        within_limits(Val::List(items)) is Ok ==> items.len() <= 100_000,
        within_limits(Val::List(items)) is Ok && 0 <= k < items.len() && items[k] is Text ==> size(
            items[k]->Text_0,
        ) <= 16_777_216,
        within_limits(Val::Dict(rows)) is Ok ==> rows.len() <= 100_000,
        within_limits(Val::Dict(rows)) is Ok && 0 <= k < rows.len() && rows[k].1 is Text ==> size(
            rows[k].1->Text_0,
        ) <= 16_777_216,
{
    if within_limits(Val::List(items)) is Ok && 0 <= k < items.len() {
        lemma_audit_items(items, 0, 1, 1, k);
        let n = choose|n: nat| (#[trigger] audit(items[k], 1, n)) is Ok;
        assert(audit(items[k], 1, n) is Ok);
    }
    if within_limits(Val::Dict(rows)) is Ok && 0 <= k < rows.len() {
        lemma_audit_rows(rows, 0, 1, 1, k);
        let n = choose|n: nat| (#[trigger] audit(rows[k].1, 1, n)) is Ok;
        assert(audit(rows[k].1, 1, n) is Ok);
    }
}

/// A value that is nested more than 1024 levels deep, or that has more than a million parts, is
/// beyond the limits.
pub proof fn law_values_are_bounded(v: Val, depth: nat, nodes: nat)
    ensures
        depth > 1_024 ==> audit(v, depth, nodes) is Err,
        nodes >= 1_000_000 ==> audit(v, depth, nodes) is Err,
        audit(v, depth, nodes) is Ok ==> audit(v, depth, nodes)->Ok_0 > nodes,
        v is ResultOk && depth <= 1_024 && nodes < 1_000_000 ==> audit(v, depth, nodes) == audit(
            *v->ResultOk_0,
            depth + 1,
            nodes + 1,
        ),
    decreases v,
{
    match v {
        Val::List(items) => {
            lemma_items_grow(items, 0, depth + 1, nodes + 1);
        },
        Val::Dict(rows) => {
            lemma_rows_grow(rows, 0, depth + 1, nodes + 1);
        },
        Val::ResultOk(inner) => {
            law_values_are_bounded(*inner, depth + 1, nodes + 1);
        },
        Val::ResultErr(inner) => {
            law_values_are_bounded(*inner, depth + 1, nodes + 1);
        },
        Val::OptionSome(inner) => {
            law_values_are_bounded(*inner, depth + 1, nodes + 1);
        },
        Val::Future(inner) => {
            law_values_are_bounded(*inner, depth + 1, nodes + 1);
        },
        _ => {},
    }
}

proof fn lemma_items_grow(items: Seq<Val>, i: nat, depth: nat, nodes: nat)
    ensures
        audit_items(items, i, depth, nodes) is Ok ==> audit_items(items, i, depth, nodes)->Ok_0
            >= nodes,
    decreases items, items.len() - i,
{
    if i < items.len() {
        law_values_are_bounded(items[i as int], depth, nodes);
        if let Ok(seen) = audit(items[i as int], depth, nodes) {
            lemma_items_grow(items, i + 1, depth, seen);
        }
    }
}

proof fn lemma_rows_grow(rows: Seq<(Str, Val)>, i: nat, depth: nat, nodes: nat)
    ensures
        audit_rows(rows, i, depth, nodes) is Ok ==> audit_rows(rows, i, depth, nodes)->Ok_0
            >= nodes,
    decreases rows, rows.len() - i,
{
    if i < rows.len() {
        law_values_are_bounded(rows[i as int].1, depth, nodes);
        if let Ok(seen) = audit(rows[i as int].1, depth, nodes) {
            lemma_rows_grow(rows, i + 1, depth, seen);
        }
    }
}

// ---------------------------------------------------------------------------
// The host
// ---------------------------------------------------------------------------

/// The host's replies are used in their order, one for each call. A call without a reply is left
/// pending, the first of them only, and fails.
pub proof fn law_replies_are_used_in_order(w: World, operation: Str, arguments: Seq<Val>)
    requires
        w.replies.len() <= usize::MAX,
    ensures
        w.cursor < w.replies.len() ==> {
            &&& ask(w, operation, arguments).0 == w.replies[w.cursor as int]
            &&& ask(w, operation, arguments).1.cursor == w.cursor + 1
            &&& ask(w, operation, arguments).1.pending == w.pending
        },
        w.cursor >= w.replies.len() ==> {
            &&& ask(w, operation, arguments).0 is Err
            &&& ask(w, operation, arguments).1.cursor == w.cursor
            &&& ask(w, operation, arguments).1.pending is Some
            &&& w.pending is None ==> ask(w, operation, arguments).1.pending == Some(
                CallM { operation, arguments },
            )
            &&& w.pending is Some ==> ask(w, operation, arguments).1.pending == w.pending
        },
        ask(w, operation, arguments).1.replies == w.replies,
        ask(w, operation, arguments).1.frames == w.frames,
        ask(w, operation, arguments).1.cells == w.cells,
        ask(w, operation, arguments).1.output == w.output,
        ask(w, operation, arguments).1.budget == w.budget,
{
}

/// A line that is said stands behind all lines before it; while a call is pending nothing is said.
pub proof fn law_lines_are_said_in_order(w: World, line: Str)
    ensures
        w.pending is None ==> say(w, line).output == w.output.push(line),
        w.pending is Some ==> say(w, line) == w,
{
}

/// Execution goes down by one level at a time, at most 256 of them, and comes up again by one.
pub proof fn law_levels(w: World)
    ensures
        enter_level(w).0 is Ok <==> w.depth < 256,
        enter_level(w).0 is Ok ==> enter_level(w).1.depth == w.depth + 1 && leave_level(
            enter_level(w).1,
        ) == w,
        enter_level(w).0 is Err ==> enter_level(w).1 == w,
{
}

// ---------------------------------------------------------------------------
// Frames and objects
// ---------------------------------------------------------------------------

/// A name that a frame does not bind itself is what the frame around it sees, and a frame without
/// one around it sees its own names alone. The same holds of the base path.
pub proof fn law_frames_see_through_to_their_parents(
    frames: Seq<FrameM>,
    id: int,
    parent: usize,
    name: Str,
)
    requires
        0 <= id < frames.len(),
        frames[id].parent == Some(parent),
        parent < id,
    ensures
        get(frames[id].names, name) is Some ==> lookup(frames, id, name) == get(
            frames[id].names,
            name,
        ),
        get(frames[id].names, name) is None ==> lookup(frames, id, name) == lookup(
            frames,
            parent as int,
            name,
        ),
        frames[id].base is Some ==> base_of(frames, id) == frames[id].base,
        frames[id].base is None ==> base_of(frames, id) == base_of(frames, parent as int),
{
}

/// A frame with no frame around it sees its own names alone.
pub proof fn law_outermost_frames_see_their_own_names(frames: Seq<FrameM>, id: int, name: Str)
    requires
        0 <= id < frames.len(),
        frames[id].parent is None,
    ensures
        lookup(frames, id, name) == get(frames[id].names, name),
        base_of(frames, id) == frames[id].base,
{
}

/// A new frame comes behind all others, with the names, the frame around it and the base that it
/// was made with; a new object has a number of its own and no fields. Nothing else changes.
pub proof fn law_new_frames_and_objects(
    w: World,
    names: Rows<Val>,
    parent: Option<usize>,
    base: Option<Str>,
    class_name: Str,
)
    requires
        w.frames.len() <= usize::MAX,
        w.cells.len() <= usize::MAX,
    ensures
        ({
            let (id, after) = new_frame(w, names, parent, base);
            &&& id == w.frames.len()
            &&& after.frames.len() == w.frames.len() + 1
            &&& after.frames.drop_last() == w.frames
            &&& after.frames.last() == (FrameM { names, parent, base })
            &&& after.cells == w.cells
        }),
        ({
            let (object, after) = new_object(w, class_name);
            &&& object is Object && object->class_name == class_name
            &&& object->id == w.cells.len()
            &&& after.cells.len() == w.cells.len() + 1
            &&& after.cells.drop_last() == w.cells
            &&& fields_of(after, object->id) == Ok::<Rows<Val>, Str>(Seq::empty())
            &&& after.frames == w.frames
        }),
{
    let (id, after) = new_frame(w, names, parent, base);
    assert(after.frames.drop_last() =~= w.frames);
    let (object, later) = new_object(w, class_name);
    assert(later.cells.drop_last() =~= w.cells);
}

proof fn lemma_put_all(d: Rows<Val>, other: Rows<Val>, i: int, name: Str)
    requires
        ordered(d),
        ordered(other),
        0 <= i <= other.len(),
    ensures
        ordered(put_all_from(d, other, i)),
        get(put_all_from(d, other, i), name) == (if exists|j: int|
            i <= j < other.len() && (#[trigger] other[j]).0 == name {
            get(other, name)
        } else {
            get(d, name)
        }),
    decreases other.len() - i,
{
    if i < other.len() {
        let key = other[i].0;
        let value = other[i].1;
        lemma_put_ordered(d, key, value);
        lemma_get_put_same(d, key, value);
        crate::table::lemma_get_at(other, i);
        if key != name {
            lemma_get_put_other(d, key, value, name);
        } else {
            assert(other[i].0 == name);
        }
        lemma_put_all(put(d, key, value), other, i + 1, name);
        if exists|j: int| i <= j < other.len() && (#[trigger] other[j]).0 == name {
            let j = choose|j: int| i <= j < other.len() && (#[trigger] other[j]).0 == name;
            if j > i {
                assert(i + 1 <= j && other[j].0 == name);
            }
        }
    }
}

/// An object that gets more fields has the new ones as they are given and keeps the others; an
/// object that is cleared has none.
pub proof fn law_fields_are_added(w: World, id: usize, more: Rows<Val>, name: Str)
    requires
        id < w.cells.len(),
        !w.cells[id as int].held,
        ordered(w.cells[id as int].fields),
        ordered(more),
    ensures
        extend_fields(w, id, more).0 is Ok,
        get(extend_fields(w, id, more).1.cells[id as int].fields, name) == (if get(
            more,
            name,
        ) is Some {
            get(more, name)
        } else {
            get(w.cells[id as int].fields, name)
        }),
        clear_fields(w, id).0 is Ok,
        clear_fields(w, id).1.cells[id as int].fields == Seq::<(Str, Val)>::empty(),
{
    lemma_put_all(w.cells[id as int].fields, more, 0, name);
    crate::laws::lemma_marked(more, name);
}

proof fn lemma_assigned(w: World, id: int, name: Str, value: Val, other: Str)
    requires
        0 <= id < w.frames.len(),
        frames_ordered(w.frames),
        other != name,
    ensures
        lookup(assign(w, id, name, value).frames, id, other) == lookup(w.frames, id, other),
        frames_ordered(assign(w, id, name, value).frames),
        assign(w, id, name, value).frames.len() == w.frames.len(),
{
    let h = match holder(w.frames, id, name) {
        Some(h) => h,
        None => id,
    };
    lemma_holder_range(w.frames, id, name);
    let after = insert_local(w, h, name, value);
    lemma_put_ordered(w.frames[h].names, name, value);
    lemma_get_put_other(w.frames[h].names, name, value, other);
    assert forall|k: int| 0 <= k < after.frames.len() implies ordered(
        (#[trigger] after.frames[k]).names,
    ) by {
        if k != h {
            assert(after.frames[k] == w.frames[k]);
        }
    }
    lemma_same_holder(w.frames, after.frames, id, other, h);
}

proof fn lemma_holder_range(frames: Seq<FrameM>, id: int, name: Str)
    requires
        0 <= id < frames.len(),
    ensures
        holder(frames, id, name) matches Some(h) ==> 0 <= h <= id,
    decreases id,
{
    if get(frames[id].names, name) is None {
        if let Some(p) = parent_of(frames, id) {
            lemma_holder_range(frames, p, name);
        }
    }
}

proof fn lemma_same_holder(a: Seq<FrameM>, b: Seq<FrameM>, id: int, name: Str, h: int)
    requires
        a.len() == b.len(),
        0 <= id < a.len(),
        0 <= h < a.len(),
        forall|k: int| 0 <= k < a.len() && k != h ==> #[trigger] b[k] == a[k],
        b[h].parent == a[h].parent,
        get(b[h].names, name) == get(a[h].names, name),
    ensures
        holder(b, id, name) == holder(a, id, name),
        lookup(b, id, name) == lookup(a, id, name),
    decreases id,
{
    if id != h {
        assert(b[id] == a[id]);
    }
    if get(a[id].names, name) is None {
        if let Some(p) = parent_of(a, id) {
            lemma_same_holder(a, b, p, name, h);
        }
    }
}

proof fn lemma_all_assigned(w: World, id: int, rows: Rows<Val>, i: int, name: Str)
    requires
        0 <= id < w.frames.len(),
        frames_ordered(w.frames),
        ordered(rows),
        0 <= i <= rows.len(),
    ensures
        lookup(assign_all(w, id, rows, i).frames, id, name) == (if exists|j: int|
            i <= j < rows.len() && (#[trigger] rows[j]).0 == name {
            get(rows, name)
        } else {
            lookup(w.frames, id, name)
        }),
    decreases rows.len() - i,
{
    if i < rows.len() {
        let key = rows[i].0;
        let next = assign(w, id, key, rows[i].1);
        crate::laws::law_assignments_are_seen(w, id, key, rows[i].1);
        crate::table::lemma_get_at(rows, i);
        lemma_frames_kept(w, id, key, rows[i].1);
        if key != name {
            lemma_assigned(w, id, key, rows[i].1, name);
        } else {
            assert(rows[i].0 == name);
        }
        lemma_all_assigned(next, id, rows, i + 1, name);
        if exists|j: int| i <= j < rows.len() && (#[trigger] rows[j]).0 == name {
            let j = choose|j: int| i <= j < rows.len() && (#[trigger] rows[j]).0 == name;
            if j > i {
                assert(i + 1 <= j && rows[j].0 == name);
            }
        }
    }
}

proof fn lemma_frames_kept(w: World, id: int, name: Str, value: Val)
    requires
        0 <= id < w.frames.len(),
        frames_ordered(w.frames),
    ensures
        frames_ordered(assign(w, id, name, value).frames),
        assign(w, id, name, value).frames.len() == w.frames.len(),
{
    let other = name + seq!['x'];
    assert(other.len() != name.len());
    lemma_assigned(w, id, name, value, other);
}

/// What is taken over into a frame, as an import does, is seen from the frame afterwards, and what
/// is not taken over is seen as before.
pub proof fn law_taken_over_names_are_seen(w: World, id: int, rows: Rows<Val>, name: Str)
    requires
        0 <= id < w.frames.len(),
        frames_ordered(w.frames),
        ordered(rows),
    ensures
        lookup(assign_all(w, id, rows, 0).frames, id, name) == (if get(rows, name) is Some {
            get(rows, name)
        } else {
            lookup(w.frames, id, name)
        }),
{
    lemma_all_assigned(w, id, rows, 0, name);
    crate::laws::lemma_marked(rows, name);
}

// ---------------------------------------------------------------------------
// What is charged
// ---------------------------------------------------------------------------

/// A value that an expression makes is charged with its own cost, and one that it copies with the
/// cost of all that it holds; where the budget does not suffice, the value is refused.
pub proof fn law_values_are_charged(v: Val, w: World)
    ensures
        charged(v, w).0 is Ok <==> w.budget.bytes + shallow_cost(v) <= w.budget.max_bytes,
        charged(v, w).0 is Ok ==> charged(v, w).0 == Ok::<Val, Str>(v) && charged(
            v,
            w,
        ).1.budget.bytes == w.budget.bytes + shallow_cost(v),
        charged_whole(v, w).0 is Ok <==> w.budget.bytes + cost(v) <= w.budget.max_bytes,
        charged_whole(v, w).0 is Ok ==> charged_whole(v, w).0 == Ok::<Val, Str>(v)
            && charged_whole(v, w).1.budget.bytes == w.budget.bytes + cost(v),
{
}

/// A call of a function of the language costs the bytes of its name and 8 for each argument; its
/// result is charged with its cost, and a text also as output.
pub proof fn law_function_calls_are_charged(name: Str, count: nat, v: Val, w: World)
    requires
        size(name) + 8 * count <= 0xffff_ffff,
    ensures
        call_cost(name, count) == size(name) + 8 * count,
        admitted(v, w).0 is Ok && !(v is ScheduledFuture) ==> admitted(v, w).1.budget.bytes
            == w.budget.bytes + cost(v),
        admitted(v, w).0 is Ok && v is Text && size(v->Text_0) <= 0xffff_ffff ==> admitted(
            v,
            w,
        ).1.budget.output == w.budget.output + size(v->Text_0),
        admitted(v, w).0 is Ok ==> admitted(v, w).0 == Ok::<Option<Val>, Str>(Some(v)),
        v is ScheduledFuture ==> admitted(v, w) == (Ok::<Option<Val>, Str>(Some(v)), w),
{
}

} // verus!
