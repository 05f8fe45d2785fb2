//! Tables that are ordered by their keys, and the single steps of a run, which keep them so.

use crate::classes::method_key;
use crate::modules::{exported, merged};
use crate::registry::{inherited, without_prefixes};
use crate::table::{get, lemma_put_ordered, lemma_slot, lemma_without_ordered, ordered, put, put_all,
    put_all_from, slot, without, Rows};
use crate::text::{has_prefix, Str};
use crate::value::{Fun, Val};
use crate::world::{ask, assign, assign_all, assign_keys, cache_module, cancel_task, enter_level,
    extend_fields, fields_of, hold, insert_local, join_task, leave_level, let_go, names_of,
    new_frame, new_object, parent_of, remove_local, reserve_bytes, reserve_output, rolled_back, say,
    schedule_task, set_field, set_fields, snapshot, start_loading, stop_loading, validate,
    with_names, FrameM, HandM, ModuleM, World};
use vstd::prelude::*;

verus! {

// ---------------------------------------------------------------------------
// Ordered tables
// ---------------------------------------------------------------------------

/// The keys of a table are ordered.
#[verifier::opaque]
pub open spec fn sorted<W>(d: Rows<W>) -> bool {
    ordered(d)
}

/// All tables of a context are ordered: the names of frames, the fields of objects, the modules,
/// and the names and functions of each module.
#[verifier::opaque]
pub open spec fn tidy(w: World) -> bool {
    &&& forall|i: int| 0 <= i < w.frames.len() ==> sorted((#[trigger] w.frames[i]).names)
    &&& forall|i: int| 0 <= i < w.cells.len() ==> sorted((#[trigger] w.cells[i]).fields)
    &&& sorted(w.modules)
    &&& forall|i: int|
        0 <= i < w.modules.len() ==> sorted((#[trigger] w.modules[i]).1.vars) && sorted(
            w.modules[i].1.funcs,
        )
}

pub broadcast proof fn lemma_sorted_empty<W>(d: Rows<W>)
    requires
        d.len() == 0,
    ensures
        #[trigger] sorted(d),
{
    reveal(sorted);
}

pub broadcast proof fn lemma_sorted_put<W>(d: Rows<W>, key: Str, value: W)
    requires
        sorted(d),
    ensures
        #[trigger] sorted(put(d, key, value)),
{
    reveal(sorted);
    lemma_put_ordered(d, key, value);
}

pub broadcast proof fn lemma_sorted_without<W>(d: Rows<W>, key: Str)
    requires
        sorted(d),
    ensures
        #[trigger] sorted(without(d, key)),
{
    reveal(sorted);
    lemma_without_ordered(d, key);
}

proof fn lemma_sorted_put_all_from<W>(d: Rows<W>, other: Rows<W>, i: int)
    requires
        sorted(d),
    ensures
        sorted(put_all_from(d, other, i)),
    decreases other.len() - i,
{
    if 0 <= i < other.len() {
        lemma_sorted_put(d, other[i].0, other[i].1);
        lemma_sorted_put_all_from(put(d, other[i].0, other[i].1), other, i + 1);
    }
}

pub broadcast proof fn lemma_sorted_put_all<W>(d: Rows<W>, other: Rows<W>)
    requires
        sorted(d),
    ensures
        #[trigger] sorted(put_all(d, other)),
{
    lemma_sorted_put_all_from(d, other, 0);
}

pub broadcast proof fn lemma_sorted_snapshot(frames: Seq<FrameM>, id: int)
    ensures
        #[trigger] sorted(snapshot(frames, id)),
    decreases id,
{
    broadcast use {lemma_sorted_empty, lemma_sorted_put_all};

    if 0 <= id < frames.len() {
        if let Some(p) = parent_of(frames, id) {
            if p < id {
                lemma_sorted_snapshot(frames, p);
            }
        }
    }
}

pub broadcast proof fn lemma_sorted_inherited(
    class_name: Str,
    prefix: Str,
    records: Rows<Fun>,
    i: nat,
    fields: bool,
    funcs: Rows<Fun>,
)
    requires
        sorted(funcs),
    ensures
        #[trigger] sorted(inherited(class_name, prefix, records, i, fields, funcs)),
    decreases records.len() - i,
{
    if i < records.len() {
        let key = records[i as int].0;
        let name = without_prefixes(key, prefix);
        let own = method_key(class_name, name);
        lemma_sorted_put(funcs, own, records[i as int].1);
        let next = if has_prefix(key, prefix) && (fields || !has_prefix(name, "__field__."@))
            && get(funcs, own) is None {
            put(funcs, own, records[i as int].1)
        } else {
            funcs
        };
        lemma_sorted_inherited(class_name, prefix, records, i + 1, fields, next);
    }
}

pub broadcast proof fn lemma_sorted_exported<W>(
    source: Rows<W>,
    marks: Rows<W>,
    prefix: Str,
    i: nat,
    target: Rows<W>,
)
    requires
        sorted(target),
    ensures
        #[trigger] sorted(exported(source, marks, prefix, i, target)),
    decreases marks.len() - i,
{
    if i < marks.len() {
        let key = marks[i as int].0;
        let name = key.skip(prefix.len() as int);
        let next = if has_prefix(key, prefix) {
            match get(source, name) {
                Some(value) => put(target, name, value),
                None => target,
            }
        } else {
            target
        };
        if let Some(value) = get(source, name) {
            lemma_sorted_put(target, name, value);
        }
        lemma_sorted_exported(source, marks, prefix, i + 1, next);
    }
}

pub broadcast proof fn lemma_sorted_merged<W>(
    source: Rows<W>,
    prefix: Str,
    left_out: Option<Str>,
    i: nat,
    target: Rows<W>,
)
    requires
        sorted(target),
    ensures
        #[trigger] sorted(merged(source, prefix, left_out, i, target)),
    decreases source.len() - i,
{
    if i < source.len() {
        let key = source[i as int].0;
        lemma_sorted_put(target, key, source[i as int].1);
        let next = if has_prefix(key, prefix) || left_out == Some(key) {
            target
        } else {
            put(target, key, source[i as int].1)
        };
        lemma_sorted_merged(source, prefix, left_out, i + 1, next);
    }
}

// ---------------------------------------------------------------------------
// Single steps
// ---------------------------------------------------------------------------

/// A step that leaves frames, objects and modules alone.
proof fn lemma_tidy_still(a: World, b: World)
    requires
        tidy(a),
        b.frames == a.frames,
        b.cells == a.cells,
        b.modules == a.modules,
    ensures
        tidy(b),
{
    reveal(tidy);
}

pub broadcast proof fn lemma_reserve_bytes_tidy(w: World, n: u64)
    requires
        tidy(w),
    ensures
        tidy((#[trigger] reserve_bytes(w, n)).1),
{
    lemma_tidy_still(w, reserve_bytes(w, n).1);
}

pub broadcast proof fn lemma_reserve_output_tidy(w: World, n: u64)
    requires
        tidy(w),
    ensures
        tidy((#[trigger] reserve_output(w, n)).1),
{
    lemma_tidy_still(w, reserve_output(w, n).1);
}

pub broadcast proof fn lemma_rolled_back_tidy(w: World, mark: (u64, u64))
    requires
        tidy(w),
    ensures
        tidy(#[trigger] rolled_back(w, mark)),
{
    lemma_tidy_still(w, rolled_back(w, mark));
}

pub broadcast proof fn lemma_schedule_tidy(w: World, value: Val)
    requires
        tidy(w),
    ensures
        tidy((#[trigger] schedule_task(w, value)).1),
{
    lemma_tidy_still(w, schedule_task(w, value).1);
}

pub broadcast proof fn lemma_join_tidy(w: World, id: usize, polls: Option<usize>)
    requires
        tidy(w),
    ensures
        tidy((#[trigger] join_task(w, id, polls)).1),
{
    lemma_tidy_still(w, join_task(w, id, polls).1);
}

pub broadcast proof fn lemma_cancel_tidy(w: World, id: usize)
    requires
        tidy(w),
    ensures
        tidy((#[trigger] cancel_task(w, id)).1),
{
    lemma_tidy_still(w, cancel_task(w, id).1);
}

pub broadcast proof fn lemma_say_tidy(w: World, line: Str)
    requires
        tidy(w),
    ensures
        tidy(#[trigger] say(w, line)),
{
    lemma_tidy_still(w, say(w, line));
}

pub broadcast proof fn lemma_validate_tidy(w: World, v: Val)
    requires
        tidy(w),
    ensures
        tidy((#[trigger] validate(w, v)).1),
{
    lemma_tidy_still(w, validate(w, v).1);
}

pub broadcast proof fn lemma_ask_tidy(w: World, operation: Str, arguments: Seq<Val>)
    requires
        tidy(w),
    ensures
        tidy((#[trigger] ask(w, operation, arguments)).1),
{
    lemma_tidy_still(w, ask(w, operation, arguments).1);
}

pub broadcast proof fn lemma_enter_level_tidy(w: World)
    requires
        tidy(w),
    ensures
        tidy((#[trigger] enter_level(w)).1),
{
    lemma_tidy_still(w, enter_level(w).1);
}

pub broadcast proof fn lemma_leave_level_tidy(w: World)
    requires
        tidy(w),
    ensures
        tidy(#[trigger] leave_level(w)),
{
    lemma_tidy_still(w, leave_level(w));
}

pub broadcast proof fn lemma_hold_tidy(w: World, hand: HandM)
    requires
        tidy(w),
    ensures
        tidy(#[trigger] hold(w, hand)),
{
    lemma_tidy_still(w, hold(w, hand));
}

pub broadcast proof fn lemma_let_go_tidy(w: World)
    requires
        tidy(w),
    ensures
        tidy(#[trigger] let_go(w)),
{
    lemma_tidy_still(w, let_go(w));
}

pub broadcast proof fn lemma_start_loading_tidy(w: World, file: Str)
    requires
        tidy(w),
    ensures
        tidy(#[trigger] start_loading(w, file)),
{
    lemma_tidy_still(w, start_loading(w, file));
}

pub broadcast proof fn lemma_stop_loading_tidy(w: World)
    requires
        tidy(w),
    ensures
        tidy(#[trigger] stop_loading(w)),
{
    lemma_tidy_still(w, stop_loading(w));
}

pub broadcast proof fn lemma_cache_module_tidy(w: World, file: Str, module: ModuleM)
    requires
        tidy(w),
        sorted(module.vars),
        sorted(module.funcs),
    ensures
        tidy(#[trigger] cache_module(w, file, module)),
{
    reveal(tidy);
    lemma_sorted_put(w.modules, file, module);
    let next = put(w.modules, file, module);
    lemma_slot(w.modules, file, 0);
    let n = slot(w.modules, file);
    assert forall|i: int| 0 <= i < next.len() implies sorted((#[trigger] next[i]).1.vars) && sorted(
        next[i].1.funcs,
    ) by {
        assert(next[i].1 == module || (i < w.modules.len() && next[i] == w.modules[i]) || (0 < i
            && next[i] == w.modules[i - 1]));
    }
}

pub broadcast proof fn lemma_new_object_tidy(w: World, class_name: Str)
    requires
        tidy(w),
    ensures
        tidy((#[trigger] new_object(w, class_name)).1),
{
    reveal(tidy);
    broadcast use lemma_sorted_empty;

}

proof fn lemma_set_fields_tidy(w: World, id: usize, fields: Rows<Val>)
    requires
        tidy(w),
        sorted(fields),
    ensures
        tidy(set_fields(w, id, fields).1),
{
    reveal(tidy);
}

proof fn lemma_fields_sorted(w: World, id: usize)
    requires
        tidy(w),
    ensures
        fields_of(w, id) matches Ok(fields) ==> sorted(fields),
{
    reveal(tidy);
    broadcast use lemma_sorted_empty;

}

pub broadcast proof fn lemma_set_field_tidy(w: World, id: usize, name: Str, value: Val)
    requires
        tidy(w),
    ensures
        tidy((#[trigger] set_field(w, id, name, value)).1),
{
    lemma_fields_sorted(w, id);
    if let Ok(fields) = fields_of(w, id) {
        lemma_sorted_put(fields, name, value);
        lemma_set_fields_tidy(w, id, put(fields, name, value));
    }
}

pub broadcast proof fn lemma_extend_fields_tidy(w: World, id: usize, more: Rows<Val>)
    requires
        tidy(w),
    ensures
        tidy((#[trigger] extend_fields(w, id, more)).1),
{
    lemma_fields_sorted(w, id);
    if let Ok(fields) = fields_of(w, id) {
        lemma_sorted_put_all(fields, more);
        lemma_set_fields_tidy(w, id, put_all(fields, more));
    }
}

pub broadcast proof fn lemma_new_frame_tidy(
    w: World,
    names: Rows<Val>,
    parent: Option<usize>,
    base: Option<Str>,
)
    requires
        tidy(w),
        sorted(names),
    ensures
        tidy((#[trigger] new_frame(w, names, parent, base)).1),
{
    reveal(tidy);
}

proof fn lemma_with_names_tidy(w: World, id: int, names: Rows<Val>)
    requires
        tidy(w),
        sorted(names),
    ensures
        tidy(with_names(w, id, names)),
{
    reveal(tidy);
}

proof fn lemma_names_sorted(w: World, id: int)
    requires
        tidy(w),
    ensures
        sorted(names_of(w, id)),
{
    reveal(tidy);
    broadcast use lemma_sorted_empty;

}

pub broadcast proof fn lemma_insert_local_tidy(w: World, id: int, name: Str, value: Val)
    requires
        tidy(w),
    ensures
        tidy(#[trigger] insert_local(w, id, name, value)),
{
    lemma_names_sorted(w, id);
    lemma_sorted_put(names_of(w, id), name, value);
    lemma_with_names_tidy(w, id, put(names_of(w, id), name, value));
}

pub broadcast proof fn lemma_remove_local_tidy(w: World, id: int, name: Str)
    requires
        tidy(w),
    ensures
        tidy(#[trigger] remove_local(w, id, name)),
{
    lemma_names_sorted(w, id);
    lemma_sorted_without(names_of(w, id), name);
    lemma_with_names_tidy(w, id, without(names_of(w, id), name));
}

pub broadcast proof fn lemma_assign_tidy(w: World, id: int, name: Str, value: Val)
    requires
        tidy(w),
    ensures
        tidy(#[trigger] assign(w, id, name, value)),
{
    broadcast use lemma_insert_local_tidy;

}

pub broadcast proof fn lemma_assign_all_tidy(w: World, id: int, rows: Rows<Val>, i: int)
    requires
        tidy(w),
    ensures
        tidy(#[trigger] assign_all(w, id, rows, i)),
    decreases rows.len() - i,
{
    if 0 <= i < rows.len() {
        lemma_assign_tidy(w, id, rows[i].0, rows[i].1);
        lemma_assign_all_tidy(assign(w, id, rows[i].0, rows[i].1), id, rows, i + 1);
    }
}

pub broadcast proof fn lemma_assign_keys_tidy(
    w: World,
    id: int,
    keys: Seq<Str>,
    rows: Rows<Val>,
    i: int,
)
    requires
        tidy(w),
    ensures
        tidy(#[trigger] assign_keys(w, id, keys, rows, i)),
    decreases keys.len() - i,
{
    if 0 <= i < keys.len() {
        if let Some(value) = get(rows, keys[i]) {
            lemma_assign_tidy(w, id, keys[i], value);
        }
        let next = match get(rows, keys[i]) {
            Some(value) => assign(w, id, keys[i], value),
            None => w,
        };
        lemma_assign_keys_tidy(next, id, keys, rows, i + 1);
    }
}

pub broadcast group group_tidy_steps {
    lemma_sorted_empty,
    lemma_sorted_put,
    lemma_sorted_without,
    lemma_sorted_put_all,
    lemma_sorted_snapshot,
    lemma_sorted_inherited,
    lemma_sorted_exported,
    lemma_sorted_merged,
    lemma_reserve_bytes_tidy,
    lemma_reserve_output_tidy,
    lemma_rolled_back_tidy,
    lemma_schedule_tidy,
    lemma_join_tidy,
    lemma_cancel_tidy,
    lemma_say_tidy,
    lemma_validate_tidy,
    lemma_ask_tidy,
    lemma_enter_level_tidy,
    lemma_leave_level_tidy,
    lemma_hold_tidy,
    lemma_let_go_tidy,
    lemma_start_loading_tidy,
    lemma_stop_loading_tidy,
    lemma_cache_module_tidy,
    lemma_new_object_tidy,
    lemma_set_field_tidy,
    lemma_extend_fields_tidy,
    lemma_new_frame_tidy,
    lemma_insert_local_tidy,
    lemma_remove_local_tidy,
    lemma_assign_tidy,
    lemma_assign_all_tidy,
    lemma_assign_keys_tidy,
}

} // verus!
