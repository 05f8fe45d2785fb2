//! What documents are made of values, and what values are made of documents.

use crate::json::{decode_inside, decode_items, decode_rows, encode, encode_items, encode_rows,
    from_json, to_json, JsonM};
use crate::table::{get, lemma_get_put_other, lemma_get_put_same, lemma_put_ordered, ordered, put,
    Rows};
use crate::text::Str;
use crate::value::Val;
use crate::world::World;
use vstd::prelude::*;

verus! {

proof fn lemma_keys_differ()
    ensures
        "__zap_variant"@ != "value"@,
        "__zap_variant"@ != "state"@,
        "__zap_variant"@ != "task_id"@,
        "state"@ != "task_id"@,
        "state"@ != "value"@,
        "ok"@ != "err"@,
        "ok"@ != "some"@,
        "ok"@ != "none"@,
        "ok"@ != "future"@,
        "ok"@ != "callable"@,
        "err"@ != "some"@,
        "err"@ != "none"@,
        "err"@ != "future"@,
        "err"@ != "callable"@,
        "some"@ != "none"@,
        "some"@ != "future"@,
        "some"@ != "callable"@,
        "none"@ != "future"@,
        "none"@ != "callable"@,
        "future"@ != "callable"@,
{
    reveal_strlit("__zap_variant");
    reveal_strlit("value");
    reveal_strlit("state");
    reveal_strlit("task_id");
    reveal_strlit("ok");
    reveal_strlit("err");
    reveal_strlit("some");
    reveal_strlit("none");
    reveal_strlit("future");
    reveal_strlit("callable");
    assert("__zap_variant"@.len() == 13);
    assert("value"@.len() == 5 && "value"@[0] == 'v');
    assert("state"@.len() == 5 && "state"@[0] == 's');
    assert("task_id"@.len() == 7);
    assert("ok"@.len() == 2 && "err"@.len() == 3);
    assert("some"@.len() == 4 && "some"@[0] == 's');
    assert("none"@.len() == 4 && "none"@[0] == 'n');
    assert("future"@.len() == 6 && "callable"@.len() == 8);
}

// ---------------------------------------------------------------------------
// Values as documents
// ---------------------------------------------------------------------------

/// Nothing, truth values, numbers and texts are documents as they are.
pub proof fn law_plain_values_are_plain_documents(b: bool, n: i64, s: Str, w: World)
    ensures
        to_json(Val::Nil, w) == Ok::<JsonM, Str>(JsonM::Null),
        to_json(Val::Bool(b), w) == Ok::<JsonM, Str>(JsonM::Bool(b)),
        to_json(Val::Number(n), w) == Ok::<JsonM, Str>(JsonM::Integer(n)),
        to_json(Val::Text(s), w) == Ok::<JsonM, Str>(JsonM::Text(s)),
{
}

/// Whether a document is an object that carries the tag of a variant.
pub open spec fn is_tagged(document: JsonM, tag: Str) -> bool {
    document is Object && get(document->Object_0, "__zap_variant"@) == Some(JsonM::Text(tag))
}

/// Results, options and futures become objects that carry the tag of their variant and, beside it,
/// the document of the value inside.
pub proof fn law_variants_are_tagged(
    v: Val,
    depth: nat,
    nodes: nat,
    active: Seq<usize>,
    w: World,
)
    requires
        depth <= 255,
        nodes < 1_000_000,
        encode(v, depth + 1, nodes + 1, active, w) is Ok,
    ensures
        ({
            let inside = (encode(v, depth + 1, nodes + 1, active, w)->Ok_0).0;
            let good = encode(Val::ResultOk(Box::new(v)), depth, nodes, active, w);
            let bad = encode(Val::ResultErr(Box::new(v)), depth, nodes, active, w);
            let there = encode(Val::OptionSome(Box::new(v)), depth, nodes, active, w);
            let later = encode(Val::Future(Box::new(v)), depth, nodes, active, w);
            &&& good is Ok && is_tagged((good->Ok_0).0, "ok"@)
            &&& bad is Ok && is_tagged((bad->Ok_0).0, "err"@)
            &&& there is Ok && is_tagged((there->Ok_0).0, "some"@)
            &&& later is Ok && is_tagged((later->Ok_0).0, "future"@)
            &&& get((good->Ok_0).0->Object_0, "value"@) == Some(inside)
            &&& get((bad->Ok_0).0->Object_0, "value"@) == Some(inside)
            &&& get((there->Ok_0).0->Object_0, "value"@) == Some(inside)
            &&& get((later->Ok_0).0->Object_0, "value"@) == Some(inside)
        }),
{
    let inside = (encode(v, depth + 1, nodes + 1, active, w)->Ok_0).0;
    lemma_tagged("ok"@, inside);
    lemma_tagged("err"@, inside);
    lemma_tagged("some"@, inside);
    lemma_tagged("future"@, inside);
}

proof fn lemma_tagged(tag: Str, inside: JsonM)
    ensures
        is_tagged(crate::json::tagged(tag, inside), tag),
        get(crate::json::tagged(tag, inside)->Object_0, "value"@) == Some(inside),
{
    lemma_keys_differ();
    let none: Rows<JsonM> = Seq::empty();
    let a = put(none, "__zap_variant"@, JsonM::Text(tag));
    lemma_put_ordered(none, "__zap_variant"@, JsonM::Text(tag));
    lemma_get_put_same(none, "__zap_variant"@, JsonM::Text(tag));
    lemma_get_put_same(a, "value"@, inside);
    lemma_get_put_other(a, "value"@, inside, "__zap_variant"@);
}

/// An empty option, a function and a scheduled future become objects that carry their tag.
pub proof fn law_empty_variants_are_tagged(f: crate::value::Fun, id: usize, w: World)
    ensures
        to_json(Val::OptionNone, w) is Ok,
        is_tagged(to_json(Val::OptionNone, w)->Ok_0, "none"@),
        to_json(Val::Callable(f), w) is Ok,
        is_tagged(to_json(Val::Callable(f), w)->Ok_0, "callable"@),
        to_json(Val::ScheduledFuture(id), w) is Ok,
        is_tagged(to_json(Val::ScheduledFuture(id), w)->Ok_0, "future"@),
        get(to_json(Val::ScheduledFuture(id), w)->Ok_0->Object_0, "state"@) == Some(
            JsonM::Text("scheduled"@),
        ),
{
    lemma_keys_differ();
    let none: Rows<JsonM> = Seq::empty();
    lemma_get_put_same(none, "__zap_variant"@, JsonM::Text("none"@));
    lemma_get_put_same(none, "__zap_variant"@, JsonM::Text("callable"@));
    let tag = JsonM::Text("future"@);
    let state = JsonM::Text("scheduled"@);
    let number = crate::json::task_number(id);
    let a = put(none, "__zap_variant"@, tag);
    let b = put(a, "state"@, state);
    lemma_put_ordered(none, "__zap_variant"@, tag);
    lemma_put_ordered(a, "state"@, state);
    lemma_get_put_same(none, "__zap_variant"@, tag);
    lemma_get_put_same(a, "state"@, state);
    lemma_get_put_other(a, "state"@, state, "__zap_variant"@);
    lemma_get_put_other(b, "task_id"@, number, "__zap_variant"@);
    lemma_get_put_other(b, "task_id"@, number, "state"@);
}

proof fn lemma_rows_kept(
    rows: Rows<Val>,
    i: nat,
    done: Rows<JsonM>,
    depth: nat,
    nodes: nat,
    active: Seq<usize>,
    w: World,
    name: Str,
)
    requires
        ordered(done),
        encode_rows(rows, i, done, depth, nodes, active, w) is Ok,
        forall|k: int| i <= k < rows.len() ==> (#[trigger] rows[k]).0 != name,
    ensures
        get((encode_rows(rows, i, done, depth, nodes, active, w)->Ok_0).0, name) == get(done, name),
    decreases rows.len() - i,
{
    if i < rows.len() {
        let one = encode(rows[i as int].1, depth, nodes, active, w)->Ok_0;
        lemma_put_ordered(done, rows[i as int].0, one.0);
        lemma_get_put_other(done, rows[i as int].0, one.0, name);
        lemma_rows_kept(
            rows,
            i + 1,
            put(done, rows[i as int].0, one.0),
            depth,
            one.1,
            active,
            w,
            name,
        );
    }
}

proof fn lemma_rows_entered(
    rows: Rows<Val>,
    i: nat,
    done: Rows<JsonM>,
    depth: nat,
    nodes: nat,
    active: Seq<usize>,
    w: World,
    k: int,
)
    requires
        ordered(done),
        ordered(rows),
        encode_rows(rows, i, done, depth, nodes, active, w) is Ok,
        i <= k < rows.len(),
    ensures
        exists|n: nat|
            (#[trigger] encode(rows[k].1, depth, n, active, w)) is Ok && get(
                (encode_rows(rows, i, done, depth, nodes, active, w)->Ok_0).0,
                rows[k].0,
            ) == Some((encode(rows[k].1, depth, n, active, w)->Ok_0).0),
    decreases rows.len() - i,
{
    let one = encode(rows[i as int].1, depth, nodes, active, w)->Ok_0;
    let next = put(done, rows[i as int].0, one.0);
    lemma_put_ordered(done, rows[i as int].0, one.0);
    if i == k {
        lemma_get_put_same(done, rows[i as int].0, one.0);
        assert forall|j: int| i + 1 <= j < rows.len() implies (#[trigger] rows[j]).0
            != rows[i as int].0 by {
            crate::text::lemma_less_total(rows[i as int].0, rows[j].0);
        }
        lemma_rows_kept(rows, i + 1, next, depth, one.1, active, w, rows[i as int].0);
    } else {
        lemma_rows_entered(rows, i + 1, next, depth, one.1, active, w, k);
    }
}

/// The document of an object tells its class under `__class` and each of its fields under the
/// field's name.
pub proof fn law_objects_tell_their_class(
    class_name: Str,
    id: usize,
    w: World,
    k: int,
)
    requires
        id < w.cells.len(),
        ordered(w.cells[id as int].fields),
        to_json(Val::Object { class_name, id }, w) is Ok,
    ensures
        ({
            let document = to_json(Val::Object { class_name, id }, w)->Ok_0;
            let fields = w.cells[id as int].fields;
            &&& document is Object
            &&& (forall|j: int|
                0 <= j < fields.len() ==> (#[trigger] fields[j]).0 != "__class"@) ==> get(
                document->Object_0,
                "__class"@,
            ) == Some(JsonM::Text(class_name))
            &&& 0 <= k < fields.len() ==> exists|n: nat|
                (#[trigger] encode(fields[k].1, 1, n, seq![id], w)) is Ok && get(
                    document->Object_0,
                    fields[k].0,
                ) == Some((encode(fields[k].1, 1, n, seq![id], w)->Ok_0).0)
        }),
{
    let fields = w.cells[id as int].fields;
    let none: Rows<JsonM> = Seq::empty();
    let class = JsonM::Text(class_name);
    let first = put(none, "__class"@, class);
    lemma_put_ordered(none, "__class"@, class);
    lemma_get_put_same(none, "__class"@, class);
    let active = Seq::<usize>::empty().push(id);
    assert(active =~= seq![id]);
    assert(encode_rows(fields, 0, first, 1, 1, active, w) is Ok);
    if forall|j: int| 0 <= j < fields.len() ==> (#[trigger] fields[j]).0 != "__class"@ {
        lemma_rows_kept(fields, 0, first, 1, 1, active, w, "__class"@);
    }
    if 0 <= k < fields.len() {
        lemma_rows_entered(fields, 0, first, 1, 1, active, w, k);
    }
}

/// An object that holds itself has no document, and neither has a value that is nested more than
/// 256 levels deep.
pub proof fn law_endless_values_have_no_document(
    class_name: Str,
    id: usize,
    v: Val,
    depth: nat,
    nodes: nat,
    active: Seq<usize>,
    w: World,
)
    ensures
        active.contains(id) ==> encode(
            Val::Object { class_name, id },
            depth,
            nodes,
            active,
            w,
        ) is Err,
        depth > 256 ==> encode(v, depth, nodes, active, w) is Err,
        nodes >= 1_000_000 ==> encode(v, depth, nodes, active, w) is Err,
{
}

proof fn lemma_items_entered(
    items: Seq<Val>,
    i: nat,
    done: Seq<JsonM>,
    depth: nat,
    nodes: nat,
    active: Seq<usize>,
    w: World,
    k: int,
)
    requires
        i == done.len(),
        i <= items.len(),
        encode_items(items, i, done, depth, nodes, active, w) is Ok,
    ensures
        ({
            let all = (encode_items(items, i, done, depth, nodes, active, w)->Ok_0).0;
            &&& all.len() == items.len()
            &&& all.take(i as int) == done
            &&& i <= k < items.len() ==> exists|n: nat|
                (#[trigger] encode(items[k], depth, n, active, w)) is Ok && all[k] == (encode(
                    items[k],
                    depth,
                    n,
                    active,
                    w,
                )->Ok_0).0
        }),
    decreases items.len() - i,
{
    if i < items.len() {
        let one = encode(items[i as int], depth, nodes, active, w)->Ok_0;
        let next = done.push(one.0);
        lemma_items_entered(items, i + 1, next, depth, one.1, active, w, k);
        let all = (encode_items(items, i, done, depth, nodes, active, w)->Ok_0).0;
        assert(all.take(i as int) =~= all.take(i as int + 1).take(i as int));
        assert(next.take(i as int) =~= done);
        assert(all[i as int] == all.take(i as int + 1)[i as int]);
    } else {
        assert(done.take(i as int) =~= done);
    }
}

/// The document of a list is an array of the documents of its items, in their order; that of a map
/// is an object with the document of each value under its key.
pub proof fn law_collections_become_documents(items: Seq<Val>, rows: Rows<Val>, w: World, k: int)
    requires
        ordered(rows),
    ensures
        to_json(Val::List(items), w) is Ok ==> {
            let document = to_json(Val::List(items), w)->Ok_0;
            &&& document is Array
            &&& document->Array_0.len() == items.len()
            &&& 0 <= k < items.len() ==> exists|n: nat|
                (#[trigger] encode(items[k], 1, n, Seq::empty(), w)) is Ok && document->Array_0[k]
                    == (encode(items[k], 1, n, Seq::empty(), w)->Ok_0).0
        },
        to_json(Val::Dict(rows), w) is Ok ==> {
            let document = to_json(Val::Dict(rows), w)->Ok_0;
            &&& document is Object
            &&& 0 <= k < rows.len() ==> exists|n: nat|
                (#[trigger] encode(rows[k].1, 1, n, Seq::empty(), w)) is Ok && get(
                    document->Object_0,
                    rows[k].0,
                ) == Some((encode(rows[k].1, 1, n, Seq::empty(), w)->Ok_0).0)
        },
{
    if to_json(Val::List(items), w) is Ok {
        lemma_items_entered(items, 0, Seq::empty(), 1, 1, Seq::empty(), w, k);
    }
    if to_json(Val::Dict(rows), w) is Ok && 0 <= k < rows.len() {
        lemma_rows_entered(rows, 0, Seq::empty(), 1, 1, Seq::empty(), w, k);
    }
}

// ---------------------------------------------------------------------------
// Documents as values
// ---------------------------------------------------------------------------

/// Plain documents are values as they are; a number that is not a 64 bit integer is no value.
pub proof fn law_plain_documents_are_plain_values(b: bool, n: i64, s: Str)
    ensures
        from_json(JsonM::Null) == Ok::<Val, Str>(Val::Nil),
        from_json(JsonM::Bool(b)) == Ok::<Val, Str>(Val::Bool(b)),
        from_json(JsonM::Integer(n)) == Ok::<Val, Str>(Val::Number(n)),
        from_json(JsonM::Text(s)) == Ok::<Val, Str>(Val::Text(s)),
        from_json(JsonM::Real(s)) is Err,
{
}

/// A document with the tag of a variant becomes that variant with the value inside; functions and
/// scheduled futures are not made of documents, and unknown tags are errors.
pub proof fn law_tags_become_variants(rows: Rows<JsonM>, tag: Str)
    requires
        get(rows, "__zap_variant"@) == Some(JsonM::Text(tag)),
        ordered(rows),
    ensures
        ({
            let r = from_json(JsonM::Object(rows));
            let inside = match get(rows, "value"@) {
                Some(document) => from_json(document),
                None => Err(Seq::empty()),
            };
            let scheduled = get(rows, "state"@) == Some(JsonM::Text("scheduled"@));
            &&& tag == "none"@ ==> r == Ok::<Val, Str>(Val::OptionNone)
            &&& tag == "callable"@ ==> r is Err
            &&& tag == "future"@ && scheduled ==> r is Err
            &&& inside is Ok && tag == "ok"@ ==> r == Ok::<Val, Str>(
                Val::ResultOk(Box::new(inside->Ok_0)),
            )
            &&& inside is Ok && tag == "err"@ ==> r == Ok::<Val, Str>(
                Val::ResultErr(Box::new(inside->Ok_0)),
            )
            &&& inside is Ok && tag == "some"@ ==> r == Ok::<Val, Str>(
                Val::OptionSome(Box::new(inside->Ok_0)),
            )
            &&& inside is Ok && tag == "future"@ && !scheduled ==> r == Ok::<Val, Str>(
                Val::Future(Box::new(inside->Ok_0)),
            )
            &&& inside is Err && (tag == "ok"@ || tag == "err"@ || tag == "some"@ || tag
                == "future"@) ==> r is Err
            &&& tag != "ok"@ && tag != "err"@ && tag != "some"@ && tag != "none"@ && tag
                != "callable"@ && tag != "future"@ ==> r is Err
        }),
{
    lemma_keys_differ();
    crate::table::lemma_get_found(rows, "value"@);
    reveal_with_fuel(decode_inside, 1);
}

proof fn lemma_decoded(items: Seq<JsonM>, n: nat, k: int)
    requires
        n <= items.len(),
        decode_items(items, n) is Ok,
    ensures
        decode_items(items, n)->Ok_0.len() == n,
        0 <= k < n ==> from_json(items[k]) == Ok::<Val, Str>(decode_items(items, n)->Ok_0[k]),
    decreases n,
{
    if n > 0 {
        lemma_decoded(items, (n - 1) as nat, k);
    }
}

/// An array becomes the list of the values of its documents, in their order.
pub proof fn law_arrays_become_lists(items: Seq<JsonM>, k: int)
    requires
        from_json(JsonM::Array(items)) is Ok,
    ensures
        from_json(JsonM::Array(items))->Ok_0 is List,
        from_json(JsonM::Array(items))->Ok_0->List_0.len() == items.len(),
        0 <= k < items.len() ==> from_json(items[k]) == Ok::<Val, Str>(
            from_json(JsonM::Array(items))->Ok_0->List_0[k],
        ),
{
    lemma_decoded(items, items.len(), k);
}

proof fn lemma_decoded_rows(rows: Rows<JsonM>, n: nat, k: int)
    requires
        n <= rows.len(),
        ordered(rows),
        decode_rows(rows, n) is Ok,
    ensures
        ordered(decode_rows(rows, n)->Ok_0),
        0 <= k < n ==> get(decode_rows(rows, n)->Ok_0, rows[k].0) is Some && from_json(rows[k].1)
            == Ok::<Val, Str>(get(decode_rows(rows, n)->Ok_0, rows[k].0)->0),
    decreases n,
{
    if n > 0 {
        lemma_decoded_rows(rows, (n - 1) as nat, k);
        let done = decode_rows(rows, (n - 1) as nat)->Ok_0;
        let value = from_json(rows[n - 1].1)->Ok_0;
        lemma_put_ordered(done, rows[n - 1].0, value);
        lemma_get_put_same(done, rows[n - 1].0, value);
        if 0 <= k < n - 1 {
            crate::text::lemma_less_total(rows[k].0, rows[n - 1].0);
            lemma_get_put_other(done, rows[n - 1].0, value, rows[k].0);
        }
    }
}

/// An object without a tag becomes the map with the value of each document under its key.
pub proof fn law_plain_objects_become_maps(rows: Rows<JsonM>, k: int)
    requires
        ordered(rows),
        get(rows, "__zap_variant"@) is None,
        from_json(JsonM::Object(rows)) is Ok,
    ensures
        from_json(JsonM::Object(rows))->Ok_0 is Dict,
        0 <= k < rows.len() ==> get(
            from_json(JsonM::Object(rows))->Ok_0->Dict_0,
            rows[k].0,
        ) is Some && from_json(rows[k].1) == Ok::<Val, Str>(
            get(from_json(JsonM::Object(rows))->Ok_0->Dict_0, rows[k].0)->0,
        ),
{
    lemma_decoded_rows(rows, rows.len(), k);
}

} // verus!
