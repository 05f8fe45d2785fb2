//! Runtime values, function records and their mathematical models.

use crate::ast::{opt_text, views, Param, ParamM, Program, StmtM};
use crate::table::Table;
use crate::text::{byte_len, decimal, join, join3, length_text, number_text, same, size, texts, Str};
use std::rc::Rc;
use vstd::prelude::*;

verus! {

pub const MAX_RUNTIME_TEXT_BYTES: usize = 16_777_216;

pub const MAX_RUNTIME_COLLECTION_ITEMS: usize = 100_000;

pub const MAX_RUNTIME_VALUE_NODES: usize = 1_000_000;

pub const MAX_RUNTIME_VALUE_DEPTH: usize = 1_024;

/// A function record. `body` holds source lines, `ast_body` a parsed body; `closure` is the
/// number of the frame that the function closes over.
#[derive(Debug, PartialEq)]
pub struct Function {
    pub visibility: String,
    pub type_params: Vec<String>,
    pub params: Vec<Param>,
    pub return_annotation: Option<String>,
    pub is_async: bool,
    pub body: Vec<String>,
    pub ast_body: Option<Rc<Program>>,
    pub closure: usize,
}

/// A runtime value. An object is known by the number of its cell in the object store, a
/// scheduled future by the number of its task.
#[derive(Debug, PartialEq)]
pub enum ZapValue {
    Nil,
    Bool(bool),
    Number(i64),
    Text(String),
    List(Vec<ZapValue>),
    Dict(Table<ZapValue>),
    Object { class_name: String, id: usize },
    ResultOk(Box<ZapValue>),
    ResultErr(Box<ZapValue>),
    OptionSome(Box<ZapValue>),
    OptionNone,
    Callable(Rc<Function>),
    Future(Box<ZapValue>),
    ScheduledFuture(usize),
}

/// The model of a function record.
pub struct Fun {
    pub visibility: Str,
    pub type_params: Seq<Str>,
    pub params: Seq<ParamM>,
    pub return_annotation: Option<Str>,
    pub is_async: bool,
    pub body: Seq<Str>,
    pub ast_body: Option<Seq<StmtM>>,
    pub closure: usize,
}

/// The model of a value.
pub enum Val {
    Nil,
    Bool(bool),
    Number(i64),
    Text(Str),
    List(Seq<Val>),
    Dict(Seq<(Str, Val)>),
    Object { class_name: Str, id: usize },
    ResultOk(Box<Val>),
    ResultErr(Box<Val>),
    OptionSome(Box<Val>),
    OptionNone,
    Callable(Fun),
    Future(Box<Val>),
    ScheduledFuture(usize),
}

pub open spec fn opt_program(p: Option<Rc<Program>>) -> Option<Seq<StmtM>> {
    match p {
        Some(program) => Some((*program)@),
        None => None,
    }
}

impl View for Function {
    type V = Fun;

    open spec fn view(&self) -> Fun {
        Fun {
            visibility: self.visibility@,
            type_params: texts(self.type_params@),
            params: views(self.params@),
            return_annotation: opt_text(self.return_annotation),
            is_async: self.is_async,
            body: texts(self.body@),
            ast_body: opt_program(self.ast_body),
            closure: self.closure,
        }
    }
}

impl ZapValue {
    pub open spec fn model(&self) -> Val
        decreases self,
    {
        match *self {
            ZapValue::Nil => Val::Nil,
            ZapValue::Bool(b) => Val::Bool(b),
            ZapValue::Number(n) => Val::Number(n),
            ZapValue::Text(s) => Val::Text(s@),
            ZapValue::List(items) => Val::List(
                Seq::new(
                    items@.len(),
                    |i: int|
                        if 0 <= i < items@.len() {
                            items@[i].model()
                        } else {
                            Val::Nil
                        },
                ),
            ),
            ZapValue::Dict(table) => Val::Dict(
                Seq::new(
                    table.entries@.len(),
                    |i: int|
                        if 0 <= i < table.entries@.len() {
                            (table.entries@[i].0@, table.entries@[i].1.model())
                        } else {
                            (Seq::empty(), Val::Nil)
                        },
                ),
            ),
            ZapValue::Object { class_name, id } => Val::Object { class_name: class_name@, id },
            ZapValue::ResultOk(value) => Val::ResultOk(Box::new(value.model())),
            ZapValue::ResultErr(value) => Val::ResultErr(Box::new(value.model())),
            ZapValue::OptionSome(value) => Val::OptionSome(Box::new(value.model())),
            ZapValue::OptionNone => Val::OptionNone,
            ZapValue::Callable(function) => Val::Callable((*function)@),
            ZapValue::Future(value) => Val::Future(Box::new(value.model())),
            ZapValue::ScheduledFuture(id) => Val::ScheduledFuture(id),
        }
    }
}

impl View for ZapValue {
    type V = Val;

    open spec fn view(&self) -> Val {
        self.model()
    }
}

/// What a list value and a table value are.
pub broadcast proof fn lemma_value_view(v: &ZapValue)
    ensures
        #[trigger] v@ == (match *v {
            ZapValue::List(items) => Val::List(views(items@)),
            ZapValue::Dict(table) => Val::Dict(table@),
            _ => v@,
        }),
{
    match v {
        ZapValue::List(items) => {
            assert(v@->List_0 =~= views(items@));
        },
        ZapValue::Dict(table) => {
            assert(v@->Dict_0 =~= table@);
        },
        _ => {},
    }
}

pub proof fn lemma_item_decreases(v: &ZapValue, i: int)
    ensures
        v matches ZapValue::List(items) ==> (0 <= i < items@.len() ==> decreases_to!(v => items@[i])),
        v matches ZapValue::Dict(table) ==> (0 <= i < table.entries@.len() ==> decreases_to!(
            v => table.entries@[i].1
        )),
{
    if let ZapValue::List(items) = v {
        if 0 <= i < items@.len() {
            assert(decreases_to!(v => v->List_0));
            assert(decreases_to!(items@ => items@[i]));
        }
    }
    if let ZapValue::Dict(table) = v {
        if 0 <= i < table.entries@.len() {
            assert(decreases_to!(v => v->Dict_0));
            assert(decreases_to!(table => table.entries));
            assert(decreases_to!(table.entries => table.entries@));
            assert(decreases_to!(table.entries@ => table.entries@[i]));
            assert(decreases_to!(table.entries@[i] => table.entries@[i].1));
        }
    }
}

/// A result with the error text in place of the error string.
pub open spec fn told<T: View>(r: Result<T, String>) -> Result<T::V, Str> {
    match r {
        Ok(value) => Ok(value@),
        Err(error) => Err(error@),
    }
}

/// A result with no value to show, with the error text in place of the error string.
pub open spec fn told_unit(r: Result<(), String>) -> Result<(), Str> {
    match r {
        Ok(_) => Ok(()),
        Err(error) => Err(error@),
    }
}

pub open spec fn told_opt<T: View>(r: Result<Option<T>, String>) -> Result<Option<T::V>, Str> {
    match r {
        Ok(Some(value)) => Ok(Some(value@)),
        Ok(None) => Ok(None),
        Err(error) => Err(error@),
    }
}

pub fn fail<T>(message: &str) -> (r: Result<T, String>)
    ensures
        r matches Err(error) && error@ == message@,
{
    Err(message.to_owned())
}

// ---------------------------------------------------------------------------
// Copying
// ---------------------------------------------------------------------------

impl ZapValue {
    pub fn copy(&self) -> (r: ZapValue)
        ensures
            r@ == self@,
        decreases self,
    {
        broadcast use lemma_value_view;

        match self {
            ZapValue::Nil => ZapValue::Nil,
            ZapValue::Bool(b) => ZapValue::Bool(*b),
            ZapValue::Number(n) => ZapValue::Number(*n),
            ZapValue::Text(s) => ZapValue::Text(s.clone()),
            ZapValue::List(items) => {
                let mut out: Vec<ZapValue> = Vec::new();
                let mut i: usize = 0;
                while i < items.len()
                    invariant
                        i <= items@.len(),
                        self == ZapValue::List(*items),
                        out@.len() == i,
                        forall|j: int| 0 <= j < i ==> (#[trigger] out@[j])@ == items@[j]@,
                    decreases items.len() - i,
                {
                    proof {
                        lemma_item_decreases(self, i as int);
                    }
                    let item = items[i].copy();
                    out.push(item);
                    i += 1;
                }
                assert(views(out@) =~= views(items@));
                ZapValue::List(out)
            },
            ZapValue::Dict(table) => {
                let mut out: Vec<(String, ZapValue)> = Vec::new();
                let mut i: usize = 0;
                while i < table.entries.len()
                    invariant
                        i <= table.entries@.len(),
                        self == ZapValue::Dict(*table),
                        out@.len() == i,
                        forall|j: int|
                            0 <= j < i ==> (#[trigger] out@[j]).0@ == table.entries@[j].0@
                                && out@[j].1@ == table.entries@[j].1@,
                    decreases table.entries.len() - i,
                {
                    proof {
                        lemma_item_decreases(self, i as int);
                    }
                    let value = table.entries[i].1.copy();
                    out.push((table.entries[i].0.clone(), value));
                    i += 1;
                }
                let copied = Table { entries: out };
                assert(copied@ =~= table@);
                ZapValue::Dict(copied)
            },
            ZapValue::Object { class_name, id } => ZapValue::Object {
                class_name: class_name.clone(),
                id: *id,
            },
            ZapValue::ResultOk(value) => ZapValue::ResultOk(Box::new(value.copy())),
            ZapValue::ResultErr(value) => ZapValue::ResultErr(Box::new(value.copy())),
            ZapValue::OptionSome(value) => ZapValue::OptionSome(Box::new(value.copy())),
            ZapValue::OptionNone => ZapValue::OptionNone,
            ZapValue::Callable(function) => ZapValue::Callable(Rc::clone(function)),
            ZapValue::Future(value) => ZapValue::Future(Box::new(value.copy())),
            ZapValue::ScheduledFuture(id) => ZapValue::ScheduledFuture(*id),
        }
    }
}

pub fn copy_values(values: &Vec<ZapValue>) -> (r: Vec<ZapValue>)
    ensures
        views(r@) == views(values@),
{
    let mut out: Vec<ZapValue> = Vec::new();
    let mut i: usize = 0;
    while i < values.len()
        invariant
            i <= values@.len(),
            out@.len() == i,
            forall|j: int| 0 <= j < i ==> (#[trigger] out@[j])@ == values@[j]@,
        decreases values.len() - i,
    {
        let item = values[i].copy();
        out.push(item);
        i += 1;
    }
    assert(views(out@) =~= views(values@));
    out
}

pub fn copy_table(table: &Table<ZapValue>) -> (r: Table<ZapValue>)
    ensures
        r@ == table@,
{
    let mut out: Vec<(String, ZapValue)> = Vec::new();
    let mut i: usize = 0;
    while i < table.entries.len()
        invariant
            i <= table.entries@.len(),
            out@.len() == i,
            forall|j: int|
                0 <= j < i ==> (#[trigger] out@[j]).0@ == table.entries@[j].0@ && out@[j].1@
                    == table.entries@[j].1@,
        decreases table.entries.len() - i,
    {
        let value = table.entries[i].1.copy();
        out.push((table.entries[i].0.clone(), value));
        i += 1;
    }
    let copied = Table { entries: out };
    assert(copied@ =~= table@);
    copied
}

/// The table of the functions in scope.
pub type Functions = Table<Rc<Function>>;

pub fn copy_functions(table: &Functions) -> (r: Functions)
    ensures
        r@ == table@,
{
    let mut out: Vec<(String, Rc<Function>)> = Vec::new();
    let mut i: usize = 0;
    while i < table.entries.len()
        invariant
            i <= table.entries@.len(),
            out@.len() == i,
            forall|j: int|
                0 <= j < i ==> (#[trigger] out@[j]).0@ == table.entries@[j].0@ && out@[j].1@
                    == table.entries@[j].1@,
        decreases table.entries.len() - i,
    {
        out.push((table.entries[i].0.clone(), Rc::clone(&table.entries[i].1)));
        i += 1;
    }
    let copied = Table { entries: out };
    assert(copied@ =~= table@);
    copied
}

// ---------------------------------------------------------------------------
// Equality
// ---------------------------------------------------------------------------

/// Equality of values: by content, for objects by the cell they stand for, for functions by the
/// frame they close over.
pub open spec fn equal(a: Val, b: Val) -> bool
    decreases a,
{
    match (a, b) {
        (Val::Nil, Val::Nil) => true,
        (Val::Bool(x), Val::Bool(y)) => x == y,
        (Val::Number(x), Val::Number(y)) => x == y,
        (Val::Text(x), Val::Text(y)) => x == y,
        (Val::List(x), Val::List(y)) => x.len() == y.len() && forall|i: int|
            0 <= i < x.len() ==> equal(#[trigger] x[i], y[i]),
        (Val::Dict(x), Val::Dict(y)) => x.len() == y.len() && forall|i: int|
            0 <= i < x.len() ==> (#[trigger] x[i]).0 == y[i].0 && equal(x[i].1, y[i].1),
        (Val::Object { id: x, .. }, Val::Object { id: y, .. }) => x == y,
        (Val::ResultOk(x), Val::ResultOk(y)) => equal(*x, *y),
        (Val::ResultErr(x), Val::ResultErr(y)) => equal(*x, *y),
        (Val::OptionSome(x), Val::OptionSome(y)) => equal(*x, *y),
        (Val::OptionNone, Val::OptionNone) => true,
        (Val::Callable(x), Val::Callable(y)) => x.closure == y.closure,
        (Val::Future(x), Val::Future(y)) => equal(*x, *y),
        (Val::ScheduledFuture(x), Val::ScheduledFuture(y)) => x == y,
        _ => false,
    }
}

impl ZapValue {
    /// Whether two values are equal.
    pub fn equals(&self, other: &ZapValue) -> (r: bool)
        ensures
            r == equal(self@, other@),
        decreases self,
    {
        broadcast use lemma_value_view;

        match (self, other) {
            (ZapValue::Nil, ZapValue::Nil) => true,
            (ZapValue::Bool(x), ZapValue::Bool(y)) => *x == *y,
            (ZapValue::Number(x), ZapValue::Number(y)) => *x == *y,
            (ZapValue::Text(x), ZapValue::Text(y)) => same(x.as_str(), y.as_str()),
            (ZapValue::List(x), ZapValue::List(y)) => {
                if x.len() != y.len() {
                    return false;
                }
                let mut i: usize = 0;
                while i < x.len()
                    invariant
                        i <= x@.len(),
                        x@.len() == y@.len(),
                        self == ZapValue::List(*x),
                        other == ZapValue::List(*y),
                        forall|j: int| 0 <= j < i ==> equal((#[trigger] x@[j])@, y@[j]@),
                    decreases x.len() - i,
                {
                    proof {
                        lemma_item_decreases(self, i as int);
                    }
                    if !x[i].equals(&y[i]) {
                        proof {
                            lemma_value_view(self);
                            lemma_value_view(other);
                            assert(!equal(views(x@)[i as int], views(y@)[i as int]));
                        }
                        return false;
                    }
                    i += 1;
                }
                proof {
                    assert forall|j: int| 0 <= j < x@.len() implies equal(
                        #[trigger] views(x@)[j],
                        views(y@)[j],
                    ) by {
                        assert(equal(x@[j]@, y@[j]@));
                    }
                }
                true
            },
            (ZapValue::Dict(x), ZapValue::Dict(y)) => {
                if x.entries.len() != y.entries.len() {
                    return false;
                }
                let mut i: usize = 0;
                while i < x.entries.len()
                    invariant
                        i <= x.entries@.len(),
                        x.entries@.len() == y.entries@.len(),
                        self == ZapValue::Dict(*x),
                        other == ZapValue::Dict(*y),
                        forall|j: int|
                            0 <= j < i ==> (#[trigger] x@[j]).0 == y@[j].0 && equal(
                                x@[j].1,
                                y@[j].1,
                            ),
                    decreases x.entries.len() - i,
                {
                    proof {
                        lemma_item_decreases(self, i as int);
                        lemma_value_view(self);
                        lemma_value_view(other);
                    }
                    let same_key = same(x.entries[i].0.as_str(), y.entries[i].0.as_str());
                    assert(x@[i as int] == (x.entries@[i as int].0@, x.entries@[i as int].1@));
                    assert(y@[i as int] == (y.entries@[i as int].0@, y.entries@[i as int].1@));
                    if !same_key || !x.entries[i].1.equals(&y.entries[i].1) {
                        return false;
                    }
                    i += 1;
                }
                true
            },
            (ZapValue::Object { id: x, .. }, ZapValue::Object { id: y, .. }) => *x == *y,
            (ZapValue::ResultOk(x), ZapValue::ResultOk(y)) => x.equals(y),
            (ZapValue::ResultErr(x), ZapValue::ResultErr(y)) => x.equals(y),
            (ZapValue::OptionSome(x), ZapValue::OptionSome(y)) => x.equals(y),
            (ZapValue::OptionNone, ZapValue::OptionNone) => true,
            (ZapValue::Callable(x), ZapValue::Callable(y)) => x.closure == y.closure,
            (ZapValue::Future(x), ZapValue::Future(y)) => x.equals(y),
            (ZapValue::ScheduledFuture(x), ZapValue::ScheduledFuture(y)) => *x == *y,
            _ => false,
        }
    }
}

// ---------------------------------------------------------------------------
// Truth, type names and text form
// ---------------------------------------------------------------------------

/// Which values count as true in a condition.
pub open spec fn truthy(v: Val) -> bool {
    match v {
        Val::Nil => false,
        Val::Bool(b) => b,
        Val::Number(n) => n != 0,
        Val::Text(s) => s.len() > 0,
        Val::List(items) => items.len() > 0,
        Val::Dict(rows) => rows.len() > 0,
        Val::ResultErr(_) => false,
        Val::OptionNone => false,
        _ => true,
    }
}

/// The name of a value's type.
pub open spec fn kind_name(v: Val) -> Str {
    match v {
        Val::Nil => "none"@,
        Val::Bool(_) => "bool"@,
        Val::Number(_) => "number"@,
        Val::Text(_) => "text"@,
        Val::List(_) => "list"@,
        Val::Dict(_) => "map"@,
        Val::Object { .. } => "object"@,
        Val::ResultOk(_) => "result"@,
        Val::ResultErr(_) => "result"@,
        Val::OptionSome(_) => "option"@,
        Val::OptionNone => "option"@,
        Val::Callable(_) => "function"@,
        Val::Future(_) => "future"@,
        Val::ScheduledFuture(_) => "future"@,
    }
}

/// The text form of a value.
pub open spec fn show(v: Val) -> Str
    decreases v, 0nat,
{
    match v {
        Val::Nil => "none"@,
        Val::Bool(b) => if b {
            "true"@
        } else {
            "false"@
        },
        Val::Number(n) => decimal(n as int),
        Val::Text(s) => s,
        Val::List(items) => "["@ + join(show_items(items), ", "@) + "]"@,
        Val::Dict(rows) => "{"@ + join(show_rows(rows), ", "@) + "}"@,
        Val::Object { class_name, .. } => "<"@ + class_name + " object>"@,
        Val::ResultOk(value) => "ok("@ + show(*value) + ")"@,
        Val::ResultErr(value) => "err("@ + show(*value) + ")"@,
        Val::OptionSome(value) => "some("@ + show(*value) + ")"@,
        Val::OptionNone => "none"@,
        Val::Callable(_) => "<callable>"@,
        Val::Future(value) => "future("@ + show(*value) + ")"@,
        Val::ScheduledFuture(id) => "<future "@ + decimal(id as int) + ">"@,
    }
}

pub open spec fn show_items(items: Seq<Val>) -> Seq<Str>
    decreases items, 0nat,
{
    Seq::new(
        items.len(),
        |i: int|
            if 0 <= i < items.len() {
                show(items[i])
            } else {
                Seq::empty()
            },
    )
}

pub open spec fn show_rows(rows: Seq<(Str, Val)>) -> Seq<Str>
    decreases rows, 0nat,
{
    Seq::new(
        rows.len(),
        |i: int|
            if 0 <= i < rows.len() {
                rows[i].0 + ": "@ + show(rows[i].1)
            } else {
                Seq::empty()
            },
    )
}

impl ZapValue {
    pub fn truthy(&self) -> (r: bool)
        ensures
            r == truthy(self@),
    {
        broadcast use lemma_value_view;

        match self {
            ZapValue::Nil => false,
            ZapValue::Bool(b) => *b,
            ZapValue::Number(n) => *n != 0,
            ZapValue::Text(s) => crate::text::chars_of(s.as_str()).len() > 0,
            ZapValue::List(items) => items.len() > 0,
            ZapValue::Dict(table) => table.entries.len() > 0,
            ZapValue::ResultErr(_) => false,
            ZapValue::OptionNone => false,
            _ => true,
        }
    }

    pub fn show(&self) -> (r: String)
        ensures
            r@ == show(self@),
        decreases self,
    {
        broadcast use lemma_value_view;

        match self {
            ZapValue::Nil => "none".to_owned(),
            ZapValue::Bool(b) => if *b {
                "true".to_owned()
            } else {
                "false".to_owned()
            },
            ZapValue::Number(n) => number_text(*n),
            ZapValue::Text(s) => s.clone(),
            ZapValue::List(items) => {
                let mut parts: Vec<String> = Vec::new();
                let mut i: usize = 0;
                while i < items.len()
                    invariant
                        i <= items@.len(),
                        self == ZapValue::List(*items),
                        parts@.len() == i,
                        forall|j: int| 0 <= j < i ==> (#[trigger] parts@[j])@ == show(items@[j]@),
                    decreases items.len() - i,
                {
                    proof {
                        lemma_item_decreases(self, i as int);
                    }
                    let part = items[i].show();
                    parts.push(part);
                    i += 1;
                }
                assert(texts(parts@) =~= show_items(views(items@)));
                let inner = crate::text::join_texts(&parts, ", ");
                join3("[", inner.as_str(), "]")
            },
            ZapValue::Dict(table) => {
                let mut parts: Vec<String> = Vec::new();
                let mut i: usize = 0;
                while i < table.entries.len()
                    invariant
                        i <= table.entries@.len(),
                        self == ZapValue::Dict(*table),
                        parts@.len() == i,
                        forall|j: int|
                            0 <= j < i ==> (#[trigger] parts@[j])@ == table@[j].0 + ": "@ + show(
                                table@[j].1,
                            ),
                    decreases table.entries.len() - i,
                {
                    proof {
                        lemma_item_decreases(self, i as int);
                    }
                    let part = table.entries[i].1.show();
                    parts.push(join3(table.entries[i].0.as_str(), ": ", part.as_str()));
                    i += 1;
                }
                assert(texts(parts@) =~= show_rows(table@));
                let inner = crate::text::join_texts(&parts, ", ");
                join3("{", inner.as_str(), "}")
            },
            ZapValue::Object { class_name, .. } => join3("<", class_name.as_str(), " object>"),
            ZapValue::ResultOk(value) => join3("ok(", value.show().as_str(), ")"),
            ZapValue::ResultErr(value) => join3("err(", value.show().as_str(), ")"),
            ZapValue::OptionSome(value) => join3("some(", value.show().as_str(), ")"),
            ZapValue::OptionNone => "none".to_owned(),
            ZapValue::Callable(_) => "<callable>".to_owned(),
            ZapValue::Future(value) => join3("future(", value.show().as_str(), ")"),
            ZapValue::ScheduledFuture(id) => join3("<future ", length_text(*id).as_str(), ">"),
        }
    }
}

pub fn value_type_name(value: &ZapValue) -> (r: &'static str)
    ensures
        r@ == kind_name(value@),
{
    match value {
        ZapValue::Nil => "none",
        ZapValue::Bool(_) => "bool",
        ZapValue::Number(_) => "number",
        ZapValue::Text(_) => "text",
        ZapValue::List(_) => "list",
        ZapValue::Dict(_) => "map",
        ZapValue::Object { .. } => "object",
        ZapValue::ResultOk(_) => "result",
        ZapValue::ResultErr(_) => "result",
        ZapValue::OptionSome(_) => "option",
        ZapValue::OptionNone => "option",
        ZapValue::Callable(_) => "function",
        ZapValue::Future(_) => "future",
        ZapValue::ScheduledFuture(_) => "future",
    }
}

// ---------------------------------------------------------------------------
// Logical size
// ---------------------------------------------------------------------------

/// A number cut off at what a counter can hold.
pub open spec fn clamp(n: int) -> u64 {
    if n > u64::MAX {
        u64::MAX
    } else if n < 0 {
        0
    } else {
        n as u64
    }
}

/// The logical bytes of a value without those of the values inside it.
pub open spec fn shallow_cost(v: Val) -> u64 {
    match v {
        Val::Nil => 8,
        Val::Bool(_) => 8,
        Val::Number(_) => 8,
        Val::Text(s) => clamp(16int + size(s)),
        Val::List(items) => clamp(24int + 8 * items.len()),
        Val::Dict(rows) => clamp(32int + 16 * rows.len()),
        Val::Object { class_name, .. } => clamp(96int + size(class_name)),
        Val::Callable(function) => clamp(128int + size(function.visibility)),
        _ => 16,
    }
}

/// The logical bytes of a value with all that it holds.
pub open spec fn cost(v: Val) -> u64
    decreases v, 0nat,
{
    match v {
        Val::List(items) => clamp(shallow_cost(v) + items_cost(items, items.len())),
        Val::Dict(rows) => clamp(shallow_cost(v) + rows_cost(rows, rows.len())),
        Val::ResultOk(value) => clamp(shallow_cost(v) + cost(*value)),
        Val::ResultErr(value) => clamp(shallow_cost(v) + cost(*value)),
        Val::OptionSome(value) => clamp(shallow_cost(v) + cost(*value)),
        Val::Future(value) => clamp(shallow_cost(v) + cost(*value)),
        _ => shallow_cost(v),
    }
}

/// The logical bytes of the first `n` items.
pub open spec fn items_cost(items: Seq<Val>, n: nat) -> u64
    decreases items, n,
{
    if n == 0 || n > items.len() {
        0
    } else {
        clamp(items_cost(items, (n - 1) as nat) + cost(items[n - 1]))
    }
}

/// The logical bytes of the first `n` entries, keys with them.
pub open spec fn rows_cost(rows: Seq<(Str, Val)>, n: nat) -> u64
    decreases rows, n,
{
    if n == 0 || n > rows.len() {
        0
    } else {
        clamp(clamp(rows_cost(rows, (n - 1) as nat) + size(rows[n - 1].0)) + cost(rows[n - 1].1))
    }
}

pub fn plus(a: u64, b: u64) -> (r: u64)
    ensures
        r == clamp(a + b),
{
    if a > u64::MAX - b {
        u64::MAX
    } else {
        a + b
    }
}

fn scaled(base: u64, step: u64, n: usize) -> (r: u64)
    requires
        base <= 1_000,
        step <= 1_000,
    ensures
        r == clamp(base + step * n),
{
    let wide: u128 = base as u128;
    let n_wide: u128 = n as u128;
    let step_wide: u128 = step as u128;
    assert(step_wide * n_wide <= 1_000 * 0xffff_ffff_ffff_ffff) by (nonlinear_arith)
        requires
            step_wide <= 1_000,
            n_wide <= 0xffff_ffff_ffff_ffff,
    ;
    let total: u128 = wide + step_wide * n_wide;
    assert(total == base + step * n);
    if total > u64::MAX as u128 {
        u64::MAX
    } else {
        total as u64
    }
}

impl ZapValue {
    pub fn shallow_cost(&self) -> (r: u64)
        ensures
            r == shallow_cost(self@),
    {
        broadcast use lemma_value_view;

        match self {
            ZapValue::Nil => 8,
            ZapValue::Bool(_) => 8,
            ZapValue::Number(_) => 8,
            ZapValue::Text(s) => scaled(16, 1, byte_len(s.as_str())),
            ZapValue::List(items) => scaled(24, 8, items.len()),
            ZapValue::Dict(table) => scaled(32, 16, table.entries.len()),
            ZapValue::Object { class_name, .. } => scaled(96, 1, byte_len(class_name.as_str())),
            ZapValue::Callable(function) => scaled(128, 1, byte_len(function.visibility.as_str())),
            _ => 16,
        }
    }

    pub fn cost(&self) -> (r: u64)
        ensures
            r == cost(self@),
        decreases self,
    {
        broadcast use lemma_value_view;

        match self {
            ZapValue::List(items) => {
                let mut total: u64 = 0;
                let mut i: usize = 0;
                while i < items.len()
                    invariant
                        i <= items@.len(),
                        self == ZapValue::List(*items),
                        total == items_cost(views(items@), i as nat),
                    decreases items.len() - i,
                {
                    proof {
                        lemma_item_decreases(self, i as int);
                    }
                    let part: u64 = items[i].cost();
                    total = plus(total, part);
                    i += 1;
                }
                plus(self.shallow_cost(), total)
            },
            ZapValue::Dict(table) => {
                let mut total: u64 = 0;
                let mut i: usize = 0;
                while i < table.entries.len()
                    invariant
                        i <= table.entries@.len(),
                        self == ZapValue::Dict(*table),
                        total == rows_cost(table@, i as nat),
                    decreases table.entries.len() - i,
                {
                    proof {
                        lemma_item_decreases(self, i as int);
                    }
                    let part: u64 = table.entries[i].1.cost();
                    let key: u64 = byte_len(table.entries[i].0.as_str()) as u64;
                    total = plus(plus(total, key), part);
                    i += 1;
                }
                plus(self.shallow_cost(), total)
            },
            ZapValue::ResultOk(value) => plus(self.shallow_cost(), value.cost()),
            ZapValue::ResultErr(value) => plus(self.shallow_cost(), value.cost()),
            ZapValue::OptionSome(value) => plus(self.shallow_cost(), value.cost()),
            ZapValue::Future(value) => plus(self.shallow_cost(), value.cost()),
            _ => self.shallow_cost(),
        }
    }
}

// ---------------------------------------------------------------------------
// Limits
// ---------------------------------------------------------------------------

/// Walks a value and counts its nodes; an error names the first limit that is broken.
pub open spec fn audit(v: Val, depth: nat, nodes: nat) -> Result<nat, Str>
    decreases v, 0nat,
{
    if depth > MAX_RUNTIME_VALUE_DEPTH {
        Err("memory limit exceeded: value nesting exceeds "@ + decimal(
            MAX_RUNTIME_VALUE_DEPTH as int,
        ) + " levels"@)
    } else if nodes >= MAX_RUNTIME_VALUE_NODES {
        Err("memory limit exceeded: value graph exceeds "@ + decimal(
            MAX_RUNTIME_VALUE_NODES as int,
        ) + " nodes"@)
    } else {
        match v {
            Val::Text(s) => if size(s) > MAX_RUNTIME_TEXT_BYTES {
                Err("memory limit exceeded: text value exceeds "@ + decimal(
                    MAX_RUNTIME_TEXT_BYTES as int,
                ) + " bytes"@)
            } else {
                Ok(nodes + 1)
            },
            Val::List(items) => if items.len() > MAX_RUNTIME_COLLECTION_ITEMS {
                Err("memory limit exceeded: list value exceeds "@ + decimal(
                    MAX_RUNTIME_COLLECTION_ITEMS as int,
                ) + " items"@)
            } else {
                audit_items(items, 0, depth + 1, nodes + 1)
            },
            Val::Dict(rows) => if rows.len() > MAX_RUNTIME_COLLECTION_ITEMS {
                Err("memory limit exceeded: map value exceeds "@ + decimal(
                    MAX_RUNTIME_COLLECTION_ITEMS as int,
                ) + " items"@)
            } else {
                audit_rows(rows, 0, depth + 1, nodes + 1)
            },
            Val::ResultOk(value) => audit(*value, depth + 1, nodes + 1),
            Val::ResultErr(value) => audit(*value, depth + 1, nodes + 1),
            Val::OptionSome(value) => audit(*value, depth + 1, nodes + 1),
            Val::Future(value) => audit(*value, depth + 1, nodes + 1),
            _ => Ok(nodes + 1),
        }
    }
}

pub open spec fn audit_items(items: Seq<Val>, i: nat, depth: nat, nodes: nat) -> Result<nat, Str>
    decreases items, items.len() - i,
{
    if i >= items.len() {
        Ok(nodes)
    } else {
        match audit(items[i as int], depth, nodes) {
            Ok(seen) => audit_items(items, i + 1, depth, seen),
            Err(error) => Err(error),
        }
    }
}

pub open spec fn audit_rows(rows: Seq<(Str, Val)>, i: nat, depth: nat, nodes: nat) -> Result<
    nat,
    Str,
>
    decreases rows, rows.len() - i,
{
    if i >= rows.len() {
        Ok(nodes)
    } else {
        match audit(rows[i as int].1, depth, nodes) {
            Ok(seen) => audit_rows(rows, i + 1, depth, seen),
            Err(error) => Err(error),
        }
    }
}

/// What the runtime limits say of a value.
pub open spec fn within_limits(v: Val) -> Result<(), Str> {
    match audit(v, 0, 0) {
        Ok(_) => Ok(()),
        Err(error) => Err(error),
    }
}

pub open spec fn told_count(r: Result<usize, String>) -> Result<nat, Str> {
    match r {
        Ok(n) => Ok(n as nat),
        Err(error) => Err(error@),
    }
}

fn limit_error(what: &str, limit: usize, unit: &str) -> (r: String)
    ensures
        r@ == what@ + decimal(limit as int) + unit@,
{
    join3(what, length_text(limit).as_str(), unit)
}

impl ZapValue {
    fn audit(&self, depth: usize, nodes: usize) -> (r: Result<usize, String>)
        requires
            depth <= MAX_RUNTIME_VALUE_DEPTH + 1,
            nodes <= MAX_RUNTIME_VALUE_NODES,
        ensures
            told_count(r) == audit(self@, depth as nat, nodes as nat),
            r matches Ok(n) ==> n <= MAX_RUNTIME_VALUE_NODES,
        decreases self,
    {
        broadcast use lemma_value_view;

        if depth > MAX_RUNTIME_VALUE_DEPTH {
            return Err(
                limit_error(
                    "memory limit exceeded: value nesting exceeds ",
                    MAX_RUNTIME_VALUE_DEPTH,
                    " levels",
                ),
            );
        }
        if nodes >= MAX_RUNTIME_VALUE_NODES {
            return Err(
                limit_error(
                    "memory limit exceeded: value graph exceeds ",
                    MAX_RUNTIME_VALUE_NODES,
                    " nodes",
                ),
            );
        }
        match self {
            ZapValue::Text(s) => {
                if byte_len(s.as_str()) > MAX_RUNTIME_TEXT_BYTES {
                    Err(
                        limit_error(
                            "memory limit exceeded: text value exceeds ",
                            MAX_RUNTIME_TEXT_BYTES,
                            " bytes",
                        ),
                    )
                } else {
                    Ok(nodes + 1)
                }
            },
            ZapValue::List(items) => {
                if items.len() > MAX_RUNTIME_COLLECTION_ITEMS {
                    return Err(
                        limit_error(
                            "memory limit exceeded: list value exceeds ",
                            MAX_RUNTIME_COLLECTION_ITEMS,
                            " items",
                        ),
                    );
                }
                let mut seen: usize = nodes + 1;
                let mut i: usize = 0;
                while i < items.len()
                    invariant
                        i <= items@.len(),
                        self == ZapValue::List(*items),
                        depth <= MAX_RUNTIME_VALUE_DEPTH,
                        seen <= MAX_RUNTIME_VALUE_NODES,
                        audit_items(views(items@), 0, (depth + 1) as nat, (nodes + 1) as nat)
                            == audit_items(views(items@), i as nat, (depth + 1) as nat, seen as nat),
                        audit(self@, depth as nat, nodes as nat) == audit_items(
                            views(items@),
                            0,
                            (depth + 1) as nat,
                            (nodes + 1) as nat,
                        ),
                    decreases items.len() - i,
                {
                    proof {
                        lemma_item_decreases(self, i as int);
                    }
                    match items[i].audit(depth + 1, seen) {
                        Ok(n) => {
                            seen = n;
                        },
                        Err(error) => {
                            return Err(error);
                        },
                    }
                    i += 1;
                }
                Ok(seen)
            },
            ZapValue::Dict(table) => {
                if table.entries.len() > MAX_RUNTIME_COLLECTION_ITEMS {
                    return Err(
                        limit_error(
                            "memory limit exceeded: map value exceeds ",
                            MAX_RUNTIME_COLLECTION_ITEMS,
                            " items",
                        ),
                    );
                }
                let mut seen: usize = nodes + 1;
                let mut i: usize = 0;
                while i < table.entries.len()
                    invariant
                        i <= table.entries@.len(),
                        self == ZapValue::Dict(*table),
                        depth <= MAX_RUNTIME_VALUE_DEPTH,
                        seen <= MAX_RUNTIME_VALUE_NODES,
                        audit_rows(table@, 0, (depth + 1) as nat, (nodes + 1) as nat) == audit_rows(
                            table@,
                            i as nat,
                            (depth + 1) as nat,
                            seen as nat,
                        ),
                        audit(self@, depth as nat, nodes as nat) == audit_rows(
                            table@,
                            0,
                            (depth + 1) as nat,
                            (nodes + 1) as nat,
                        ),
                    decreases table.entries.len() - i,
                {
                    proof {
                        lemma_item_decreases(self, i as int);
                    }
                    match table.entries[i].1.audit(depth + 1, seen) {
                        Ok(n) => {
                            seen = n;
                        },
                        Err(error) => {
                            return Err(error);
                        },
                    }
                    i += 1;
                }
                Ok(seen)
            },
            ZapValue::ResultOk(value) => value.audit(depth + 1, nodes + 1),
            ZapValue::ResultErr(value) => value.audit(depth + 1, nodes + 1),
            ZapValue::OptionSome(value) => value.audit(depth + 1, nodes + 1),
            ZapValue::Future(value) => value.audit(depth + 1, nodes + 1),
            _ => Ok(nodes + 1),
        }
    }

    /// Tests a value against the runtime limits.
    pub fn validate_memory_limits(&self) -> (r: Result<(), String>)
        ensures
            told_unit(r) == within_limits(self@),
    {
        match self.audit(0, 0) {
            Ok(_) => Ok(()),
            Err(error) => Err(error),
        }
    }
}

} // verus!
