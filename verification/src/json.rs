//! JSON: documents, the encoding of values as documents and the decoding of documents.

use crate::ast::views;
use crate::outside::{json_text, render_json};
use crate::table::{get, lemma_get_found, ordered, put, Rows, Table};
use crate::text::{decimal, join2, join3, length_text, same, Str};
use crate::value::{fail, lemma_value_view, told, Val, ZapValue, MAX_RUNTIME_VALUE_NODES};
use crate::world::{fields_of, ExecutionContext, World};
use vstd::prelude::*;

verus! {

pub const MAX_JSON_BYTES: usize = 8_388_608;

pub const MAX_JSON_DEPTH: usize = 256;

/// A JSON document. A number that is no signed 64-bit integer is kept as its text.
#[derive(Debug, PartialEq)]
pub enum Json {
    Null,
    Bool(bool),
    Integer(i64),
    Real(String),
    Text(String),
    Array(Vec<Json>),
    Object(Table<Json>),
}

/// The model of a document.
pub enum JsonM {
    Null,
    Bool(bool),
    Integer(i64),
    Real(Str),
    Text(Str),
    Array(Seq<JsonM>),
    Object(Seq<(Str, JsonM)>),
}

impl Json {
    pub open spec fn model(&self) -> JsonM
        decreases self,
    {
        match *self {
            Json::Null => JsonM::Null,
            Json::Bool(b) => JsonM::Bool(b),
            Json::Integer(n) => JsonM::Integer(n),
            Json::Real(s) => JsonM::Real(s@),
            Json::Text(s) => JsonM::Text(s@),
            Json::Array(items) => JsonM::Array(
                Seq::new(
                    items@.len(),
                    |i: int|
                        if 0 <= i < items@.len() {
                            items@[i].model()
                        } else {
                            JsonM::Null
                        },
                ),
            ),
            Json::Object(table) => JsonM::Object(
                Seq::new(
                    table.entries@.len(),
                    |i: int|
                        if 0 <= i < table.entries@.len() {
                            (table.entries@[i].0@, table.entries@[i].1.model())
                        } else {
                            (Seq::empty(), JsonM::Null)
                        },
                ),
            ),
        }
    }
}

impl View for Json {
    type V = JsonM;

    open spec fn view(&self) -> JsonM {
        self.model()
    }
}

pub broadcast proof fn lemma_json_view(j: &Json)
    ensures
        #[trigger] j@ == (match *j {
            Json::Array(items) => JsonM::Array(views(items@)),
            Json::Object(table) => JsonM::Object(table@),
            _ => j@,
        }),
{
    match j {
        Json::Array(items) => {
            assert(j@->Array_0 =~= views(items@));
        },
        Json::Object(table) => {
            assert(j@->Object_0 =~= table@);
        },
        _ => {},
    }
}

proof fn lemma_json_decreases(j: &Json, i: int)
    ensures
        j matches Json::Array(items) ==> (0 <= i < items@.len() ==> decreases_to!(j => items@[i])),
        j matches Json::Object(table) ==> (0 <= i < table.entries@.len() ==> decreases_to!(
            j => table.entries@[i].1
        )),
{
    if let Json::Array(items) = j {
        if 0 <= i < items@.len() {
            assert(decreases_to!(j => j->Array_0));
            assert(decreases_to!(items@ => items@[i]));
        }
    }
    if let Json::Object(table) = j {
        if 0 <= i < table.entries@.len() {
            assert(decreases_to!(j => j->Object_0));
            assert(decreases_to!(table => table.entries));
            assert(decreases_to!(table.entries => table.entries@));
            assert(decreases_to!(table.entries@ => table.entries@[i]));
            assert(decreases_to!(table.entries@[i] => table.entries@[i].1));
        }
    }
}

/// Documents of integers, texts, truth values, arrays and ordered objects, nested at most `depth`
/// deep.
pub open spec fn plain_json(j: JsonM, depth: nat) -> bool
    decreases j,
{
    match j {
        JsonM::Real(_) => false,
        JsonM::Array(items) => depth > 0 && forall|i: int|
            0 <= i < items.len() ==> plain_json(#[trigger] items[i], (depth - 1) as nat),
        JsonM::Object(rows) => depth > 0 && ordered(rows) && forall|i: int|
            0 <= i < rows.len() ==> plain_json((#[trigger] rows[i]).1, (depth - 1) as nat),
        _ => true,
    }
}

// ---------------------------------------------------------------------------
// Encoding
// ---------------------------------------------------------------------------

pub open spec fn json_depth_error() -> Str {
    "json encode failed: value graph exceeds "@ + decimal(MAX_JSON_DEPTH as int) + " levels"@
}

pub open spec fn json_nodes_error() -> Str {
    "json encode failed: value graph exceeds "@ + decimal(MAX_RUNTIME_VALUE_NODES as int)
        + " nodes"@
}

pub open spec fn json_left(depth: nat) -> nat {
    if depth > MAX_JSON_DEPTH {
        0
    } else {
        (MAX_JSON_DEPTH + 1 - depth) as nat
    }
}

/// A document that carries a variant of the language and the value inside it.
pub open spec fn tagged(tag: Str, inside: JsonM) -> JsonM {
    JsonM::Object(put(put(Seq::empty(), "__zap_variant"@, JsonM::Text(tag)), "value"@, inside))
}

pub open spec fn tag_only(tag: Str) -> JsonM {
    JsonM::Object(put(Seq::empty(), "__zap_variant"@, JsonM::Text(tag)))
}

/// The number of a task as a document.
pub open spec fn task_number(id: usize) -> JsonM {
    if id <= i64::MAX {
        JsonM::Integer(id as i64)
    } else {
        JsonM::Real(decimal(id as int))
    }
}

pub open spec fn scheduled_json(id: usize) -> JsonM {
    JsonM::Object(
        put(
            put(
                put(Seq::empty(), "__zap_variant"@, JsonM::Text("future"@)),
                "state"@,
                JsonM::Text("scheduled"@),
            ),
            "task_id"@,
            task_number(id),
        ),
    )
}

pub open spec fn wrapped(tag: Str, r: Result<(JsonM, nat), Str>) -> Result<(JsonM, nat), Str> {
    match r {
        Ok(inner) => Ok((tagged(tag, inner.0), inner.1)),
        Err(error) => Err(error),
    }
}

/// Encodes a value; `nodes` values have been encoded before it, inside the objects `active`.
pub open spec fn encode(v: Val, depth: nat, nodes: nat, active: Seq<usize>, w: World) -> Result<
    (JsonM, nat),
    Str,
>
    decreases json_left(depth), 0nat,
{
    if depth > MAX_JSON_DEPTH {
        Err(json_depth_error())
    } else if nodes + 1 > MAX_RUNTIME_VALUE_NODES {
        Err(json_nodes_error())
    } else {
        let n = nodes + 1;
        match v {
            Val::Nil => Ok((JsonM::Null, n)),
            Val::Bool(b) => Ok((JsonM::Bool(b), n)),
            Val::Number(x) => Ok((JsonM::Integer(x), n)),
            Val::Text(s) => Ok((JsonM::Text(s), n)),
            Val::List(items) => match encode_items(
                items,
                0,
                Seq::empty(),
                depth + 1,
                n,
                active,
                w,
            ) {
                Ok(done) => Ok((JsonM::Array(done.0), done.1)),
                Err(error) => Err(error),
            },
            Val::Dict(rows) => match encode_rows(
                rows,
                0,
                Seq::empty(),
                depth + 1,
                n,
                active,
                w,
            ) {
                Ok(done) => Ok((JsonM::Object(done.0), done.1)),
                Err(error) => Err(error),
            },
            Val::Object { class_name, id } => if active.contains(id) {
                Err("json encode failed: cyclic object reference"@)
            } else {
                match fields_of(w, id) {
                    Err(error) => Err(error),
                    Ok(fields) => match encode_rows(
                        fields,
                        0,
                        put(Seq::empty(), "__class"@, JsonM::Text(class_name)),
                        depth + 1,
                        n,
                        active.push(id),
                        w,
                    ) {
                        Ok(done) => Ok((JsonM::Object(done.0), done.1)),
                        Err(error) => Err(error),
                    },
                }
            },
            Val::ResultOk(inner) => wrapped("ok"@, encode(*inner, depth + 1, n, active, w)),
            Val::ResultErr(inner) => wrapped("err"@, encode(*inner, depth + 1, n, active, w)),
            Val::OptionSome(inner) => wrapped("some"@, encode(*inner, depth + 1, n, active, w)),
            Val::OptionNone => Ok((tag_only("none"@), n)),
            Val::Callable(_) => Ok((tag_only("callable"@), n)),
            Val::Future(inner) => wrapped("future"@, encode(*inner, depth + 1, n, active, w)),
            Val::ScheduledFuture(id) => Ok((scheduled_json(id), n)),
        }
    }
}

pub open spec fn encode_items(
    items: Seq<Val>,
    i: nat,
    done: Seq<JsonM>,
    depth: nat,
    nodes: nat,
    active: Seq<usize>,
    w: World,
) -> Result<(Seq<JsonM>, nat), Str>
    decreases json_left(depth), items.len() - i + 1,
{
    if i >= items.len() {
        Ok((done, nodes))
    } else {
        match encode(items[i as int], depth, nodes, active, w) {
            Ok(one) => encode_items(items, i + 1, done.push(one.0), depth, one.1, active, w),
            Err(error) => Err(error),
        }
    }
}

pub open spec fn encode_rows(
    rows: Rows<Val>,
    i: nat,
    done: Rows<JsonM>,
    depth: nat,
    nodes: nat,
    active: Seq<usize>,
    w: World,
) -> Result<(Rows<JsonM>, nat), Str>
    decreases json_left(depth), rows.len() - i + 1,
{
    if i >= rows.len() {
        Ok((done, nodes))
    } else {
        match encode(rows[i as int].1, depth, nodes, active, w) {
            Ok(one) => encode_rows(
                rows,
                i + 1,
                put(done, rows[i as int].0, one.0),
                depth,
                one.1,
                active,
                w,
            ),
            Err(error) => Err(error),
        }
    }
}

/// The document of a value.
pub open spec fn to_json(v: Val, w: World) -> Result<JsonM, Str> {
    match encode(v, 0, 0, Seq::empty(), w) {
        Ok(done) => Ok(done.0),
        Err(error) => Err(error),
    }
}

pub open spec fn told_encoded(r: Result<(Json, usize), String>) -> Result<(JsonM, nat), Str> {
    match r {
        Ok(done) => Ok((done.0@, done.1 as nat)),
        Err(error) => Err(error@),
    }
}

fn tag_table(tag: &str) -> (r: Table<Json>)
    ensures
        r@ == put(Seq::<(Str, JsonM)>::empty(), "__zap_variant"@, JsonM::Text(tag@)),
{
    let mut table: Table<Json> = Table::new();
    table.insert("__zap_variant".to_owned(), Json::Text(tag.to_owned()));
    table
}

fn tag_document(tag: &str, inside: Json) -> (r: Json)
    ensures
        r@ == tagged(tag@, inside@),
{
    broadcast use lemma_json_view;

    let mut table = tag_table(tag);
    table.insert("value".to_owned(), inside);
    Json::Object(table)
}

fn wrap_document(tag: &str, r: Result<(Json, usize), String>) -> (s: Result<(Json, usize), String>)
    requires
        r matches Ok(done) ==> done.1 <= MAX_RUNTIME_VALUE_NODES,
    ensures
        told_encoded(s) == wrapped(tag@, told_encoded(r)),
        s matches Ok(done) ==> done.1 <= MAX_RUNTIME_VALUE_NODES,
{
    match r {
        Ok((inside, nodes)) => Ok((tag_document(tag, inside), nodes)),
        Err(error) => Err(error),
    }
}

fn holds_id(list: &Vec<usize>, id: usize) -> (r: bool)
    ensures
        r == list@.contains(id),
{
    let mut i: usize = 0;
    while i < list.len()
        invariant
            i <= list@.len(),
            forall|j: int| 0 <= j < i ==> #[trigger] list@[j] != id,
        decreases list.len() - i,
    {
        if list[i] == id {
            return true;
        }
        i += 1;
    }
    false
}

fn encode_table(
    table: &Table<ZapValue>,
    start: Table<Json>,
    depth: usize,
    nodes: usize,
    active: &mut Vec<usize>,
    context: &ExecutionContext,
) -> (r: Result<(Table<Json>, usize), String>)
    requires
        depth <= MAX_JSON_DEPTH + 1,
        nodes <= MAX_RUNTIME_VALUE_NODES,
    ensures
        match r {
            Ok(done) => encode_rows(
                table@,
                0,
                start@,
                depth as nat,
                nodes as nat,
                old(active)@,
                context@,
            ) == Ok::<(Rows<JsonM>, nat), Str>((done.0@, done.1 as nat)) && done.1
                <= MAX_RUNTIME_VALUE_NODES,
            Err(error) => encode_rows(
                table@,
                0,
                start@,
                depth as nat,
                nodes as nat,
                old(active)@,
                context@,
            ) == Err::<(Rows<JsonM>, nat), Str>(error@),
        },
        final(active)@ == old(active)@,
    decreases json_left(depth as nat), table.entries@.len() + 1,
{
    let mut done = start;
    let mut seen: usize = nodes;
    let mut i: usize = 0;
    while i < table.entries.len()
        invariant
            i <= table.entries@.len(),
            depth <= MAX_JSON_DEPTH + 1,
            seen <= MAX_RUNTIME_VALUE_NODES,
            active@ == old(active)@,
            encode_rows(
                table@,
                0,
                start@,
                depth as nat,
                nodes as nat,
                old(active)@,
                context@,
            ) == encode_rows(
                table@,
                i as nat,
                done@,
                depth as nat,
                seen as nat,
                old(active)@,
                context@,
            ),
        decreases table.entries.len() - i,
    {
        match value_to_json_inner(&table.entries[i].1, depth, seen, active, context) {
            Ok((document, n)) => {
                done.insert(table.entries[i].0.clone(), document);
                seen = n;
            },
            Err(error) => {
                return Err(error);
            },
        }
        i += 1;
    }
    Ok((done, seen))
}

fn value_to_json_inner(
    value: &ZapValue,
    depth: usize,
    nodes: usize,
    active: &mut Vec<usize>,
    context: &ExecutionContext,
) -> (r: Result<(Json, usize), String>)
    requires
        depth <= MAX_JSON_DEPTH + 1,
        nodes <= MAX_RUNTIME_VALUE_NODES,
    ensures
        told_encoded(r) == encode(
            value@,
            depth as nat,
            nodes as nat,
            old(active)@,
            context@,
        ),
        r matches Ok(done) ==> done.1 <= MAX_RUNTIME_VALUE_NODES,
        final(active)@ == old(active)@,
    decreases json_left(depth as nat), 0nat,
{
    broadcast use lemma_value_view;
    broadcast use lemma_json_view;

    if depth > MAX_JSON_DEPTH {
        return Err(
            join3(
                "json encode failed: value graph exceeds ",
                length_text(MAX_JSON_DEPTH).as_str(),
                " levels",
            ),
        );
    }
    if nodes + 1 > MAX_RUNTIME_VALUE_NODES {
        return Err(
            join3(
                "json encode failed: value graph exceeds ",
                length_text(MAX_RUNTIME_VALUE_NODES).as_str(),
                " nodes",
            ),
        );
    }
    let n: usize = nodes + 1;
    match value {
        ZapValue::Nil => Ok((Json::Null, n)),
        ZapValue::Bool(b) => Ok((Json::Bool(*b), n)),
        ZapValue::Number(x) => Ok((Json::Integer(*x), n)),
        ZapValue::Text(s) => Ok((Json::Text(s.clone()), n)),
        ZapValue::List(items) => {
            let mut done: Vec<Json> = Vec::new();
            let mut seen: usize = n;
            let mut i: usize = 0;
            assert(views(done@) =~= Seq::<JsonM>::empty());
            let ghost target = encode_items(
                views(items@),
                0,
                Seq::empty(),
                (depth + 1) as nat,
                n as nat,
                old(active)@,
                context@,
            );
            while i < items.len()
                invariant
                    i <= items@.len(),
                    depth <= MAX_JSON_DEPTH,
                    seen <= MAX_RUNTIME_VALUE_NODES,
                    active@ == old(active)@,
                    target == encode_items(
                        views(items@),
                        i as nat,
                        views(done@),
                        (depth + 1) as nat,
                        seen as nat,
                        old(active)@,
                        context@,
                    ),
                    encode(value@, depth as nat, nodes as nat, old(active)@, context@) == (
                    match target {
                        Ok(all) => Ok::<(JsonM, nat), Str>((JsonM::Array(all.0), all.1)),
                        Err(error) => Err(error),
                    }),
                decreases items.len() - i,
            {
                match value_to_json_inner(&items[i], depth + 1, seen, active, context) {
                    Ok((document, m)) => {
                        let ghost earlier = done@;
                        done.push(document);
                        assert(views(done@) =~= views(earlier).push(document@));
                        seen = m;
                    },
                    Err(error) => {
                        return Err(error);
                    },
                }
                i += 1;
            }
            Ok((Json::Array(done), seen))
        },
        ZapValue::Dict(table) => match encode_table(
            table,
            Table::new(),
            depth + 1,
            n,
            active,
            context,
        ) {
            Ok((done, seen)) => Ok((Json::Object(done), seen)),
            Err(error) => Err(error),
        },
        ZapValue::Object { class_name, id } => {
            if holds_id(active, *id) {
                return fail("json encode failed: cyclic object reference");
            }
            let fields = match context.fields_of(*id) {
                Err(error) => {
                    return Err(error);
                },
                Ok(fields) => fields,
            };
            let mut start: Table<Json> = Table::new();
            start.insert("__class".to_owned(), Json::Text(class_name.clone()));
            active.push(*id);
            let result = encode_table(&fields, start, depth + 1, n, active, context);
            let last = active.pop();
            assert(active@ =~= old(active)@);
            match result {
                Ok((done, seen)) => Ok((Json::Object(done), seen)),
                Err(error) => Err(error),
            }
        },
        ZapValue::ResultOk(inner) => {
            let r = value_to_json_inner(inner, depth + 1, n, active, context);
            wrap_document("ok", r)
        },
        ZapValue::ResultErr(inner) => {
            let r = value_to_json_inner(inner, depth + 1, n, active, context);
            wrap_document("err", r)
        },
        ZapValue::OptionSome(inner) => {
            let r = value_to_json_inner(inner, depth + 1, n, active, context);
            wrap_document("some", r)
        },
        ZapValue::OptionNone => Ok((Json::Object(tag_table("none")), n)),
        ZapValue::Callable(_) => Ok((Json::Object(tag_table("callable")), n)),
        ZapValue::Future(inner) => {
            let r = value_to_json_inner(inner, depth + 1, n, active, context);
            wrap_document("future", r)
        },
        ZapValue::ScheduledFuture(id) => {
            let mut table = tag_table("future");
            table.insert("state".to_owned(), Json::Text("scheduled".to_owned()));
            let number = if *id as u64 <= i64::MAX as u64 {
                Json::Integer(*id as i64)
            } else {
                Json::Real(length_text(*id))
            };
            table.insert("task_id".to_owned(), number);
            Ok((Json::Object(table), n))
        },
    }
}

/// The document of a value. Objects are written with their class and fields; a cycle of objects,
/// too deep a nesting or too many values are errors.
pub fn value_to_json(value: &ZapValue, context: &ExecutionContext) -> (r: Result<Json, String>)
    ensures
        told(r) == to_json(value@, context@),
{
    let mut active: Vec<usize> = Vec::new();
    assert(active@ =~= Seq::<usize>::empty());
    match value_to_json_inner(value, 0, 0, &mut active, context) {
        Ok((document, _)) => Ok(document),
        Err(error) => Err(error),
    }
}

// ---------------------------------------------------------------------------
// Decoding
// ---------------------------------------------------------------------------

/// A document as a message shows it.
pub open spec fn shown_json(j: JsonM) -> Str {
    match json_text(j) {
        Ok(text) => text,
        Err(error) => error,
    }
}

/// The value of a document.
pub open spec fn from_json(j: JsonM) -> Result<Val, Str>
    decreases j, 0nat,
{
    match j {
        JsonM::Null => Ok(Val::Nil),
        JsonM::Bool(b) => Ok(Val::Bool(b)),
        JsonM::Integer(n) => Ok(Val::Number(n)),
        JsonM::Real(_) => Err("JSON number is outside Zap's integer range"@),
        JsonM::Text(s) => Ok(Val::Text(s)),
        JsonM::Array(items) => match decode_items(items, items.len()) {
            Ok(values) => Ok(Val::List(values)),
            Err(error) => Err(error),
        },
        JsonM::Object(rows) => match get(rows, "__zap_variant"@) {
            None => match decode_rows(rows, rows.len()) {
                Ok(values) => Ok(Val::Dict(values)),
                Err(error) => Err(error),
            },
            Some(JsonM::Text(tag)) => {
                let inside = decode_inside(rows);
                if tag == "ok"@ || tag == "err"@ || tag == "some"@ {
                    match inside {
                        None => Err("JSON "@ + tag + " variant is missing its value"@),
                        Some(Err(error)) => Err(error),
                        Some(Ok(value)) => if tag == "ok"@ {
                            Ok(Val::ResultOk(Box::new(value)))
                        } else if tag == "err"@ {
                            Ok(Val::ResultErr(Box::new(value)))
                        } else {
                            Ok(Val::OptionSome(Box::new(value)))
                        },
                    }
                } else if tag == "none"@ {
                    Ok(Val::OptionNone)
                } else if tag == "callable"@ {
                    Err("JSON callable values cannot be deserialized"@)
                } else if tag == "future"@ {
                    if get(rows, "state"@) == Some(JsonM::Text("scheduled"@)) {
                        Err("JSON scheduled future values cannot be deserialized"@)
                    } else {
                        match inside {
                            None => Err("JSON future variant is missing its value"@),
                            Some(Err(error)) => Err(error),
                            Some(Ok(value)) => Ok(Val::Future(Box::new(value))),
                        }
                    }
                } else {
                    Err("unknown Zap JSON variant: "@ + tag)
                }
            },
            Some(other) => Err("Zap JSON variant must be text, got "@ + shown_json(other)),
        },
    }
}

/// The decoded value inside a tagged document.
pub open spec fn decode_inside(rows: Seq<(Str, JsonM)>) -> Option<Result<Val, Str>>
    decreases rows, 0nat,
{
    proof {
        lemma_get_found(rows, "value"@);
    }
    let i = crate::table::slot(rows, "value"@);
    if 0 <= i < rows.len() && rows[i].0 == "value"@ {
        Some(from_json(rows[i].1))
    } else {
        None
    }
}

/// The values of the first `n` documents of an array.
pub open spec fn decode_items(items: Seq<JsonM>, n: nat) -> Result<Seq<Val>, Str>
    decreases items, n,
{
    if n == 0 || n > items.len() {
        Ok(Seq::empty())
    } else {
        match decode_items(items, (n - 1) as nat) {
            Err(error) => Err(error),
            Ok(done) => match from_json(items[n - 1]) {
                Ok(value) => Ok(done.push(value)),
                Err(error) => Err(error),
            },
        }
    }
}

/// The values of the first `n` entries of an object.
pub open spec fn decode_rows(rows: Seq<(Str, JsonM)>, n: nat) -> Result<Rows<Val>, Str>
    decreases rows, n,
{
    if n == 0 || n > rows.len() {
        Ok(Seq::empty())
    } else {
        match decode_rows(rows, (n - 1) as nat) {
            Err(error) => Err(error),
            Ok(done) => match from_json(rows[n - 1].1) {
                Ok(value) => Ok(put(done, rows[n - 1].0, value)),
                Err(error) => Err(error),
            },
        }
    }
}

proof fn lemma_decode_items_fails(items: Seq<JsonM>, n: nat, m: nat)
    requires
        n <= m <= items.len(),
        decode_items(items, n) is Err,
    ensures
        decode_items(items, m) == decode_items(items, n),
    decreases m - n,
{
    if n < m {
        lemma_decode_items_fails(items, n, (m - 1) as nat);
    }
}

proof fn lemma_decode_rows_fails(rows: Seq<(Str, JsonM)>, n: nat, m: nat)
    requires
        n <= m <= rows.len(),
        decode_rows(rows, n) is Err,
    ensures
        decode_rows(rows, m) == decode_rows(rows, n),
    decreases m - n,
{
    if n < m {
        lemma_decode_rows_fails(rows, n, (m - 1) as nat);
    }
}

fn shown(document: &Json) -> (r: String)
    ensures
        r@ == shown_json(document@),
{
    match render_json(document) {
        Ok(text) => text,
        Err(error) => error,
    }
}

/// The value of a document. Tagged objects become results, options and futures again; callables
/// and scheduled futures cannot be read back.
pub fn json_to_value(document: &Json) -> (r: Result<ZapValue, String>)
    ensures
        told(r) == from_json(document@),
    decreases document,
{
    broadcast use lemma_value_view;
    broadcast use lemma_json_view;

    match document {
        Json::Null => Ok(ZapValue::Nil),
        Json::Bool(b) => Ok(ZapValue::Bool(*b)),
        Json::Integer(n) => Ok(ZapValue::Number(*n)),
        Json::Real(_) => fail("JSON number is outside Zap's integer range"),
        Json::Text(s) => Ok(ZapValue::Text(s.clone())),
        Json::Array(items) => {
            let mut out: Vec<ZapValue> = Vec::new();
            let mut i: usize = 0;
            assert(views(out@) =~= Seq::<Val>::empty());
            while i < items.len()
                invariant
                    i <= items@.len(),
                    document == Json::Array(*items),
                    decode_items(views(items@), i as nat) == Ok::<Seq<Val>, Str>(views(out@)),
                decreases items.len() - i,
            {
                proof {
                    lemma_json_decreases(document, i as int);
                }
                match json_to_value(&items[i]) {
                    Ok(value) => {
                        let ghost earlier = out@;
                        out.push(value);
                        assert(views(out@) =~= views(earlier).push(value@));
                    },
                    Err(error) => {
                        proof {
                            lemma_json_view(document);
                            lemma_decode_items_fails(
                                views(items@),
                                (i + 1) as nat,
                                items@.len(),
                            );
                        }
                        return Err(error);
                    },
                }
                i += 1;
            }
            Ok(ZapValue::List(out))
        },
        Json::Object(table) => {
            match table.find("__zap_variant") {
                None => {
                    let mut out: Table<ZapValue> = Table::new();
                    let mut i: usize = 0;
                    while i < table.entries.len()
                        invariant
                            i <= table.entries@.len(),
                            document == Json::Object(*table),
                            get(table@, "__zap_variant"@) is None,
                            decode_rows(table@, i as nat) == Ok::<Rows<Val>, Str>(out@),
                        decreases table.entries.len() - i,
                    {
                        proof {
                            lemma_json_decreases(document, i as int);
                        }
                        match json_to_value(&table.entries[i].1) {
                            Ok(value) => {
                                out.insert(table.entries[i].0.clone(), value);
                            },
                            Err(error) => {
                                proof {
                                    lemma_json_view(document);
                                    lemma_decode_rows_fails(
                                        table@,
                                        (i + 1) as nat,
                                        table.entries@.len(),
                                    );
                                }
                                return Err(error);
                            },
                        }
                        i += 1;
                    }
                    Ok(ZapValue::Dict(out))
                },
                Some(Json::Text(tag)) => {
                    let is_ok = same(tag.as_str(), "ok");
                    let is_err = same(tag.as_str(), "err");
                    let is_some = same(tag.as_str(), "some");
                    let is_future = same(tag.as_str(), "future");
                    if same(tag.as_str(), "none") && !is_ok && !is_err && !is_some {
                        return Ok(ZapValue::OptionNone);
                    }
                    if same(tag.as_str(), "callable") && !is_ok && !is_err && !is_some {
                        return fail("JSON callable values cannot be deserialized");
                    }
                    if !is_ok && !is_err && !is_some && !is_future {
                        return Err(join2("unknown Zap JSON variant: ", tag.as_str()));
                    }
                    if !is_ok && !is_err && !is_some {
                        if let Some(Json::Text(state)) = table.find("state") {
                            if same(state.as_str(), "scheduled") {
                                return fail("JSON scheduled future values cannot be deserialized");
                            }
                        }
                    }
                    match table.find("value") {
                        None => {
                            if is_ok || is_err || is_some {
                                Err(
                                    join3(
                                        "JSON ",
                                        tag.as_str(),
                                        " variant is missing its value",
                                    ),
                                )
                            } else {
                                fail("JSON future variant is missing its value")
                            }
                        },
                        Some(inside) => {
                            proof {
                                let k = choose|k: int|
                                    0 <= k < table.entries@.len() && table.entries@[k].1 == *inside;
                                lemma_json_decreases(document, k);
                                lemma_get_found(table@, "value"@);
                            }
                            match json_to_value(inside) {
                                Err(error) => Err(error),
                                Ok(value) => if is_ok {
                                    Ok(ZapValue::ResultOk(Box::new(value)))
                                } else if is_err {
                                    Ok(ZapValue::ResultErr(Box::new(value)))
                                } else if is_some {
                                    Ok(ZapValue::OptionSome(Box::new(value)))
                                } else {
                                    Ok(ZapValue::Future(Box::new(value)))
                                },
                            }
                        },
                    }
                },
                Some(other) => Err(
                    join2("Zap JSON variant must be text, got ", shown(other).as_str()),
                ),
            }
        },
    }
}

} // verus!
