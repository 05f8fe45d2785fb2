//! Type annotations: matching, inference of generic bindings and substitution.

use crate::ast::views;
use crate::table::{get, put, Rows, Table};
use crate::text::{chars_of, ends_with, find, has_suffix, join, join2, join3, join4, join_texts,
    pair_view, same, search, text_of, texts, lemma_texts_push, trim, trimmed, Str};
use crate::value::{fail, kind_name, lemma_item_decreases, lemma_value_view, told_unit,
    value_type_name, Val, ZapValue};
use vstd::prelude::*;

verus! {

pub const MAX_ANNOTATION_DEPTH: usize = 32;

// ---------------------------------------------------------------------------
// Taking annotations apart
// ---------------------------------------------------------------------------

pub open spec fn unbalanced_error() -> Str {
    "unbalanced type annotation"@
}

pub open spec fn empty_argument_error() -> Str {
    "generic type arguments cannot be empty"@
}

/// The arguments of `s` from position `i` on; the current argument started at `start`, inside
/// `depth` brackets.
pub open spec fn args_from(s: Str, start: int, i: int, depth: nat) -> Result<Seq<Str>, Str>
    decreases s.len() - i,
{
    if i < 0 || i >= s.len() {
        let argument = trim(s.subrange(start, s.len() as int));
        if depth != 0 {
            Err(unbalanced_error())
        } else if argument.len() == 0 {
            Err(empty_argument_error())
        } else {
            Ok(seq![argument])
        }
    } else if s[i] == '<' {
        args_from(s, start, i + 1, depth + 1)
    } else if s[i] == '>' {
        if depth == 0 {
            Err(unbalanced_error())
        } else {
            args_from(s, start, i + 1, (depth - 1) as nat)
        }
    } else if s[i] == ',' && depth == 0 {
        let argument = trim(s.subrange(start, i));
        if argument.len() == 0 {
            Err(empty_argument_error())
        } else {
            match args_from(s, i + 1, i + 1, 0) {
                Ok(rest) => Ok(seq![argument] + rest),
                Err(error) => Err(error),
            }
        }
    } else {
        args_from(s, start, i + 1, depth)
    }
}

/// The top-level arguments between the brackets of a generic annotation.
pub open spec fn generic_args(inner: Str) -> Result<Seq<Str>, Str> {
    args_from(inner, 0, 0, 0)
}

pub open spec fn told_texts(r: Result<Vec<String>, String>) -> Result<Seq<Str>, Str> {
    match r {
        Ok(parts) => Ok(texts(parts@)),
        Err(error) => Err(error@),
    }
}

/// What is owed once the arguments before the current one are known.
pub open spec fn prepended(done: Seq<Str>, rest: Result<Seq<Str>, Str>) -> Result<Seq<Str>, Str> {
    match rest {
        Ok(more) => Ok(done + more),
        Err(error) => Err(error),
    }
}

pub fn split_generic_args(inner: &str) -> (r: Result<Vec<String>, String>)
    ensures
        told_texts(r) == generic_args(inner@),
{
    let v = chars_of(inner);
    let mut out: Vec<String> = Vec::new();
    let mut start: usize = 0;
    let mut depth: usize = 0;
    let mut i: usize = 0;
    proof {
        assert(texts(out@) =~= Seq::<Str>::empty());
        let first = generic_args(v@);
        if first is Ok {
            assert(texts(out@) + first->Ok_0 =~= first->Ok_0);
        }
    }
    while i < v.len()
        invariant
            start <= i <= v@.len(),
            depth <= i,
            v@ == inner@,
            generic_args(inner@) == prepended(
                texts(out@),
                args_from(v@, start as int, i as int, depth as nat),
            ),
        decreases v.len() - i,
    {
        let c: char = v[i];
        if c == '<' {
            depth += 1;
        } else if c == '>' {
            if depth == 0 {
                return fail("unbalanced type annotation");
            }
            depth -= 1;
        } else if c == ',' && depth == 0 {
            let piece = text_of(&v, start, i);
            let argument = trimmed(piece.as_str());
            if chars_of(argument.as_str()).len() == 0 {
                return fail("generic type arguments cannot be empty");
            }
            let ghost earlier = out@;
            out.push(argument);
            start = i + 1;
            proof {
                lemma_texts_push(earlier, argument);
                let rest = args_from(v@, i + 1, i + 1, 0);
                if rest is Ok {
                    assert(texts(earlier) + (seq![argument@] + rest->Ok_0) =~= texts(out@)
                        + rest->Ok_0);
                }
            }
        }
        i += 1;
    }
    if depth != 0 {
        return fail("unbalanced type annotation");
    }
    let piece = text_of(&v, start, v.len());
    let argument = trimmed(piece.as_str());
    if chars_of(argument.as_str()).len() == 0 {
        return fail("generic type arguments cannot be empty");
    }
    let ghost earlier = out@;
    out.push(argument);
    proof {
        lemma_texts_push(earlier, argument);
        assert(texts(earlier) + seq![argument@] =~= texts(out@));
    }
    Ok(out)
}

/// The base and the inside of an annotation of the form `base<inside>`.
pub open spec fn generic_parts(a: Str) -> Option<(Str, Str)> {
    match find(a, "<"@) {
        Some(open) => if !has_suffix(a, ">"@) || open == 0 {
            None
        } else {
            Some((a.take(open), a.subrange(open + 1, a.len() - 1)))
        },
        None => None,
    }
}

pub fn generic_annotation(annotation: &str) -> (r: Option<(String, String)>)
    ensures
        pair_view(r) == generic_parts(annotation@),
{
    let v = chars_of(annotation);
    let bracket = chars_of("<");
    proof {
        reveal_strlit("<");
        reveal_strlit(">");
    }
    match search(&v, &bracket, 0) {
        Some(open) => {
            if !ends_with(annotation, ">") || open == 0 {
                None
            } else {
                proof {
                    assert(v@.subrange(open as int, open + 1)[0] == bracket@[0]);
                    assert(v@.subrange(v@.len() - 1, v@.len() as int)[0] == ">"@[0]);
                    assert(v@[open as int] == '<');
                    assert(v@[v@.len() - 1] == '>');
                }
                let base = text_of(&v, 0, open);
                let inside = text_of(&v, open + 1, v.len() - 1);
                assert(base@ =~= v@.take(open as int));
                Some((base, inside))
            }
        },
        None => None,
    }
}

// ---------------------------------------------------------------------------
// Matching
// ---------------------------------------------------------------------------

pub open spec fn unknown_annotation_error(expected: Str) -> Str {
    "unknown or invalid generic type annotation: "@ + expected
}

/// Whether a value has the annotated type.
pub open spec fn fits(annotation: Str, v: Val) -> Result<bool, Str>
    decreases v, 0nat,
{
    let expected = trim(annotation);
    if expected.len() == 0 || expected == "any"@ {
        Ok(true)
    } else {
        match generic_parts(expected) {
            None => Ok(expected == kind_name(v) && !(v is Future) && !(v is ScheduledFuture)),
            Some(parts) => match generic_args(parts.1) {
                Err(error) => Err(error),
                Ok(args) => {
                    let base = trim(parts.0);
                    if base == "list"@ {
                        match v {
                            Val::List(items) => if args.len() == 1 {
                                items_fit(args[0], items, 0)
                            } else {
                                Ok(false)
                            },
                            _ => Ok(false),
                        }
                    } else if base == "map"@ {
                        match v {
                            Val::Dict(rows) => if args.len() == 2 {
                                if trim(args[0]) != "text"@ && trim(args[0]) != "any"@ {
                                    Ok(false)
                                } else {
                                    rows_fit(args[1], rows, 0)
                                }
                            } else {
                                Ok(false)
                            },
                            _ => Ok(false),
                        }
                    } else if base == "result"@ {
                        match v {
                            Val::ResultOk(item) => if args.len() == 1 {
                                fits(args[0], *item)
                            } else {
                                Ok(false)
                            },
                            Val::ResultErr(item) => if args.len() == 1 {
                                fits(args[0], *item)
                            } else {
                                Ok(false)
                            },
                            _ => Ok(false),
                        }
                    } else if base == "option"@ {
                        match v {
                            Val::OptionSome(item) => if args.len() == 1 {
                                fits(args[0], *item)
                            } else {
                                Ok(false)
                            },
                            Val::OptionNone => Ok(args.len() == 1),
                            _ => Ok(false),
                        }
                    } else {
                        Err(unknown_annotation_error(expected))
                    }
                },
            },
        }
    }
}

/// Whether the items from position `i` on have the annotated type, up to the first that has not.
pub open spec fn items_fit(annotation: Str, items: Seq<Val>, i: nat) -> Result<bool, Str>
    decreases items, items.len() - i,
{
    if i >= items.len() {
        Ok(true)
    } else {
        match fits(annotation, items[i as int]) {
            Ok(true) => items_fit(annotation, items, i + 1),
            other => other,
        }
    }
}

pub open spec fn rows_fit(annotation: Str, rows: Seq<(Str, Val)>, i: nat) -> Result<bool, Str>
    decreases rows, rows.len() - i,
{
    if i >= rows.len() {
        Ok(true)
    } else {
        match fits(annotation, rows[i as int].1) {
            Ok(true) => rows_fit(annotation, rows, i + 1),
            other => other,
        }
    }
}

pub open spec fn told_bool(r: Result<bool, String>) -> Result<bool, Str> {
    match r {
        Ok(b) => Ok(b),
        Err(error) => Err(error@),
    }
}

fn is_empty(s: &str) -> (r: bool)
    ensures
        r == (s@.len() == 0),
{
    chars_of(s).len() == 0
}

pub fn matches_annotation(annotation: &str, value: &ZapValue) -> (r: Result<bool, String>)
    ensures
        told_bool(r) == fits(annotation@, value@),
    decreases value,
{
    broadcast use lemma_value_view;

    let expected = trimmed(annotation);
    if is_empty(expected.as_str()) || same(expected.as_str(), "any") {
        return Ok(true);
    }
    match generic_annotation(expected.as_str()) {
        None => {
            let is_future = match value {
                ZapValue::Future(_) => true,
                ZapValue::ScheduledFuture(_) => true,
                _ => false,
            };
            Ok(same(expected.as_str(), value_type_name(value)) && !is_future)
        },
        Some((base_text, inside)) => {
            let args = match split_generic_args(inside.as_str()) {
                Err(error) => {
                    return Err(error);
                },
                Ok(args) => args,
            };
            assert(texts(args@).len() == args@.len());
            let base = trimmed(base_text.as_str());
            if same(base.as_str(), "list") {
                match value {
                    ZapValue::List(items) => {
                        if args.len() != 1 {
                            return Ok(false);
                        }
                        let mut i: usize = 0;
                        while i < items.len()
                            invariant
                                i <= items@.len(),
                                args@.len() == 1,
                                value == ZapValue::List(*items),
                                fits(annotation@, value@) == items_fit(
                                    args@[0]@,
                                    views(items@),
                                    i as nat,
                                ),
                            decreases items.len() - i,
                        {
                            proof {
                                lemma_item_decreases(value, i as int);
                            }
                            match matches_annotation(args[0].as_str(), &items[i]) {
                                Ok(true) => {},
                                other => {
                                    return other;
                                },
                            }
                            i += 1;
                        }
                        Ok(true)
                    },
                    _ => Ok(false),
                }
            } else if same(base.as_str(), "map") {
                match value {
                    ZapValue::Dict(table) => {
                        if args.len() != 2 {
                            return Ok(false);
                        }
                        let key = trimmed(args[0].as_str());
                        if !same(key.as_str(), "text") && !same(key.as_str(), "any") {
                            return Ok(false);
                        }
                        let mut i: usize = 0;
                        while i < table.entries.len()
                            invariant
                                i <= table.entries@.len(),
                                args@.len() == 2,
                                value == ZapValue::Dict(*table),
                                fits(annotation@, value@) == rows_fit(
                                    args@[1]@,
                                    table@,
                                    i as nat,
                                ),
                            decreases table.entries.len() - i,
                        {
                            proof {
                                lemma_item_decreases(value, i as int);
                            }
                            match matches_annotation(args[1].as_str(), &table.entries[i].1) {
                                Ok(true) => {},
                                other => {
                                    return other;
                                },
                            }
                            i += 1;
                        }
                        Ok(true)
                    },
                    _ => Ok(false),
                }
            } else if same(base.as_str(), "result") {
                match value {
                    ZapValue::ResultOk(item) => if args.len() == 1 {
                        matches_annotation(args[0].as_str(), item)
                    } else {
                        Ok(false)
                    },
                    ZapValue::ResultErr(item) => if args.len() == 1 {
                        matches_annotation(args[0].as_str(), item)
                    } else {
                        Ok(false)
                    },
                    _ => Ok(false),
                }
            } else if same(base.as_str(), "option") {
                match value {
                    ZapValue::OptionSome(item) => if args.len() == 1 {
                        matches_annotation(args[0].as_str(), item)
                    } else {
                        Ok(false)
                    },
                    ZapValue::OptionNone => Ok(args.len() == 1),
                    _ => Ok(false),
                }
            } else {
                Err(join2("unknown or invalid generic type annotation: ", expected.as_str()))
            }
        },
    }
}

/// What an annotation says of a value that is bound to a name.
pub open spec fn checked(name: Str, annotation: Str, v: Val) -> Result<(), Str> {
    let expected = trim(annotation);
    if expected.len() == 0 || expected == "any"@ {
        Ok(())
    } else {
        match fits(expected, v) {
            Ok(true) => Ok(()),
            Ok(false) => Err("type mismatch for "@ + name + ": expected "@ + expected + ", got "@
                + kind_name(v)),
            Err(error) => Err("invalid type annotation for "@ + name + ": "@ + error),
        }
    }
}

pub fn check_annotation(name: &str, annotation: &str, value: &ZapValue) -> (r: Result<(), String>)
    ensures
        told_unit(r) == checked(name@, annotation@, value@),
{
    let expected = trimmed(annotation);
    if is_empty(expected.as_str()) || same(expected.as_str(), "any") {
        return Ok(());
    }
    match matches_annotation(expected.as_str(), value) {
        Ok(true) => Ok(()),
        Ok(false) => Err(
            crate::text::join6(
                "type mismatch for ",
                name,
                ": expected ",
                expected.as_str(),
                ", got ",
                value_type_name(value),
            ),
        ),
        Err(error) => Err(join4("invalid type annotation for ", name, ": ", error.as_str())),
    }
}

// ---------------------------------------------------------------------------
// Annotations of running values
// ---------------------------------------------------------------------------

/// The annotation that describes a value.
pub open spec fn annotation_of(v: Val, depth: nat) -> Str
    decreases v,
{
    if depth > MAX_ANNOTATION_DEPTH {
        "any"@
    } else {
        match v {
            Val::Nil => "none"@,
            Val::Bool(_) => "bool"@,
            Val::Number(_) => "number"@,
            Val::Text(_) => "text"@,
            Val::Object { .. } => "object"@,
            Val::Callable(_) => "function"@,
            Val::Future(_) => "future"@,
            Val::ScheduledFuture(_) => "future"@,
            Val::List(items) => {
                if items.len() == 0 {
                    "list<"@ + "any"@ + ">"@
                } else if forall|i: int|
                    1 <= i < items.len() ==> annotation_of(#[trigger] items[i], depth + 1)
                        == annotation_of(items[0], depth + 1) {
                    "list<"@ + annotation_of(items[0], depth + 1) + ">"@
                } else {
                    "list<any>"@
                }
            },
            Val::Dict(rows) => {
                if rows.len() == 0 {
                    "map<text,"@ + "any"@ + ">"@
                } else if forall|i: int|
                    1 <= i < rows.len() ==> annotation_of((#[trigger] rows[i]).1, depth + 1)
                        == annotation_of(rows[0].1, depth + 1) {
                    "map<text,"@ + annotation_of(rows[0].1, depth + 1) + ">"@
                } else {
                    "map<text,any>"@
                }
            },
            Val::ResultOk(item) => "result<"@ + annotation_of(*item, depth + 1) + ">"@,
            Val::ResultErr(item) => "result<"@ + annotation_of(*item, depth + 1) + ">"@,
            Val::OptionSome(item) => "option<"@ + annotation_of(*item, depth + 1) + ">"@,
            Val::OptionNone => "option<any>"@,
        }
    }
}

pub fn runtime_annotation(value: &ZapValue, depth: usize) -> (r: String)
    ensures
        r@ == annotation_of(value@, depth as nat),
    decreases value,
{
    broadcast use lemma_value_view;

    if depth > MAX_ANNOTATION_DEPTH {
        return "any".to_owned();
    }
    match value {
        ZapValue::Nil => "none".to_owned(),
        ZapValue::Bool(_) => "bool".to_owned(),
        ZapValue::Number(_) => "number".to_owned(),
        ZapValue::Text(_) => "text".to_owned(),
        ZapValue::Object { .. } => "object".to_owned(),
        ZapValue::Callable(_) => "function".to_owned(),
        ZapValue::Future(_) => "future".to_owned(),
        ZapValue::ScheduledFuture(_) => "future".to_owned(),
        ZapValue::List(items) => {
            if items.len() == 0 {
                return join3("list<", "any", ">");
            }
            proof {
                lemma_item_decreases(value, 0);
            }
            let element = runtime_annotation(&items[0], depth + 1);
            let mut i: usize = 1;
            while i < items.len()
                invariant
                    1 <= i <= items@.len(),
                    depth <= MAX_ANNOTATION_DEPTH,
                    value == ZapValue::List(*items),
                    element@ == annotation_of(items@[0]@, (depth + 1) as nat),
                    forall|j: int|
                        1 <= j < i ==> annotation_of((#[trigger] items@[j])@, (depth + 1) as nat)
                            == element@,
                decreases items.len() - i,
            {
                proof {
                    lemma_item_decreases(value, i as int);
                }
                let other = runtime_annotation(&items[i], depth + 1);
                if !same(other.as_str(), element.as_str()) {
                    proof {
                        lemma_value_view(value);
                        assert(value@ == Val::List(views(items@)));
                        assert(annotation_of(views(items@)[i as int], (depth + 1) as nat)
                            != annotation_of(views(items@)[0], (depth + 1) as nat));
                    }
                    return "list<any>".to_owned();
                }
                i += 1;
            }
            proof {
                assert forall|j: int| 1 <= j < items@.len() implies annotation_of(
                    #[trigger] views(items@)[j],
                    (depth + 1) as nat,
                ) == annotation_of(views(items@)[0], (depth + 1) as nat) by {
                    assert(annotation_of(items@[j]@, (depth + 1) as nat) == element@);
                }
            }
            join3("list<", element.as_str(), ">")
        },
        ZapValue::Dict(table) => {
            if table.entries.len() == 0 {
                return join3("map<text,", "any", ">");
            }
            proof {
                lemma_item_decreases(value, 0);
            }
            let element = runtime_annotation(&table.entries[0].1, depth + 1);
            let mut i: usize = 1;
            while i < table.entries.len()
                invariant
                    1 <= i <= table.entries@.len(),
                    depth <= MAX_ANNOTATION_DEPTH,
                    value == ZapValue::Dict(*table),
                    element@ == annotation_of(table@[0].1, (depth + 1) as nat),
                    forall|j: int|
                        1 <= j < i ==> annotation_of((#[trigger] table@[j]).1, (depth + 1) as nat)
                            == element@,
                decreases table.entries.len() - i,
            {
                proof {
                    lemma_item_decreases(value, i as int);
                }
                let other = runtime_annotation(&table.entries[i].1, depth + 1);
                assert(table@[i as int].1 == table.entries@[i as int].1@);
                if !same(other.as_str(), element.as_str()) {
                    proof {
                        lemma_value_view(value);
                        assert(value@ == Val::Dict(table@));
                    }
                    return "map<text,any>".to_owned();
                }
                i += 1;
            }
            join3("map<text,", element.as_str(), ">")
        },
        ZapValue::ResultOk(item) => join3(
            "result<",
            runtime_annotation(item, depth + 1).as_str(),
            ">",
        ),
        ZapValue::ResultErr(item) => join3(
            "result<",
            runtime_annotation(item, depth + 1).as_str(),
            ">",
        ),
        ZapValue::OptionSome(item) => join3(
            "option<",
            runtime_annotation(item, depth + 1).as_str(),
            ">",
        ),
        ZapValue::OptionNone => "option<any>".to_owned(),
    }
}

// ---------------------------------------------------------------------------
// Generic bindings
// ---------------------------------------------------------------------------

/// What is left of the nesting that annotations may have.
pub open spec fn depth_left(depth: nat) -> nat {
    if depth > MAX_ANNOTATION_DEPTH {
        0
    } else {
        (MAX_ANNOTATION_DEPTH + 1 - depth) as nat
    }
}

/// Compares an expected annotation with an actual one and binds type parameters on the way.
pub open spec fn infer(
    expected_text: Str,
    actual_text: Str,
    type_params: Seq<Str>,
    bindings: Rows<Str>,
    depth: nat,
) -> (bool, Rows<Str>)
    decreases depth_left(depth), 0nat,
{
    let expected = trim(expected_text);
    let actual = trim(actual_text);
    if depth > MAX_ANNOTATION_DEPTH {
        (false, bindings)
    } else if type_params.contains(expected) {
        match get(bindings, expected) {
            Some(bound) => (bound == actual, bindings),
            None => (true, put(bindings, expected, actual)),
        }
    } else if expected == "any"@ || expected == actual {
        (true, bindings)
    } else {
        match (generic_parts(expected), generic_parts(actual)) {
            (Some(e), Some(a)) => if trim(e.0) != trim(a.0) {
                (false, bindings)
            } else {
                match (generic_args(e.1), generic_args(a.1)) {
                    (Ok(expected_args), Ok(actual_args)) => if expected_args.len()
                        != actual_args.len() {
                        (false, bindings)
                    } else {
                        infer_all(expected_args, actual_args, type_params, bindings, depth + 1, 0)
                    },
                    _ => (false, bindings),
                }
            },
            _ => (false, bindings),
        }
    }
}

pub open spec fn infer_all(
    expected: Seq<Str>,
    actual: Seq<Str>,
    type_params: Seq<Str>,
    bindings: Rows<Str>,
    depth: nat,
    i: nat,
) -> (bool, Rows<Str>)
    decreases depth_left(depth), expected.len() - i + 1,
{
    if i >= expected.len() {
        (true, bindings)
    } else {
        let (matched, bound) = infer(
            expected[i as int],
            actual[i as int],
            type_params,
            bindings,
            depth,
        );
        if matched {
            infer_all(expected, actual, type_params, bound, depth, i + 1)
        } else {
            (false, bound)
        }
    }
}

fn holds_text(list: &Vec<String>, item: &str) -> (r: bool)
    ensures
        r == texts(list@).contains(item@),
{
    let mut i: usize = 0;
    while i < list.len()
        invariant
            i <= list@.len(),
            forall|j: int| 0 <= j < i ==> (#[trigger] list@[j])@ != item@,
        decreases list.len() - i,
    {
        if same(list[i].as_str(), item) {
            assert(texts(list@)[i as int] == item@);
            return true;
        }
        i += 1;
    }
    assert(!texts(list@).contains(item@)) by {
        if texts(list@).contains(item@) {
            let k = choose|k: int| 0 <= k < texts(list@).len() && texts(list@)[k] == item@;
            assert(list@[k]@ == item@);
        }
    }
    false
}

pub fn infer_runtime_substitution(
    expected_text: &str,
    actual_text: &str,
    type_params: &Vec<String>,
    bindings: &mut Table<String>,
    depth: usize,
) -> (r: bool)
    ensures
        (r, final(bindings)@) == infer(
            expected_text@,
            actual_text@,
            texts(type_params@),
            old(bindings)@,
            depth as nat,
        ),
    decreases depth_left(depth as nat),
{
    if depth > MAX_ANNOTATION_DEPTH {
        return false;
    }
    let expected = trimmed(expected_text);
    let actual = trimmed(actual_text);
    if holds_text(type_params, expected.as_str()) {
        if let Some(bound) = bindings.find(expected.as_str()) {
            return same(bound.as_str(), actual.as_str());
        }
        bindings.insert(expected, actual);
        return true;
    }
    if same(expected.as_str(), "any") || same(expected.as_str(), actual.as_str()) {
        return true;
    }
    let expected_parts = generic_annotation(expected.as_str());
    let actual_parts = generic_annotation(actual.as_str());
    let (e, a) = match (expected_parts, actual_parts) {
        (Some(e), Some(a)) => (e, a),
        _ => {
            return false;
        },
    };
    if !same(trimmed(e.0.as_str()).as_str(), trimmed(a.0.as_str()).as_str()) {
        return false;
    }
    let expected_split = split_generic_args(e.1.as_str());
    let actual_split = split_generic_args(a.1.as_str());
    let (expected_args, actual_args) = match (expected_split, actual_split) {
        (Ok(x), Ok(y)) => (x, y),
        _ => {
            return false;
        },
    };
    assert(texts(expected_args@).len() == expected_args@.len());
    assert(texts(actual_args@).len() == actual_args@.len());
    if expected_args.len() != actual_args.len() {
        return false;
    }
    let ghost whole_result = infer_all(
        texts(expected_args@),
        texts(actual_args@),
        texts(type_params@),
        old(bindings)@,
        (depth + 1) as nat,
        0,
    );
    let mut i: usize = 0;
    while i < expected_args.len()
        invariant
            i <= expected_args@.len(),
            depth <= MAX_ANNOTATION_DEPTH,
            expected_args@.len() == actual_args@.len(),
            whole_result == infer_all(
                texts(expected_args@),
                texts(actual_args@),
                texts(type_params@),
                bindings@,
                (depth + 1) as nat,
                i as nat,
            ),
            whole_result == infer(
                expected_text@,
                actual_text@,
                texts(type_params@),
                old(bindings)@,
                depth as nat,
            ),
        decreases expected_args.len() - i,
    {
        let matched = infer_runtime_substitution(
            expected_args[i].as_str(),
            actual_args[i].as_str(),
            type_params,
            bindings,
            depth + 1,
        );
        assert(texts(expected_args@)[i as int] == expected_args@[i as int]@);
        assert(texts(actual_args@)[i as int] == actual_args@[i as int]@);
        if !matched {
            return false;
        }
        i += 1;
    }
    true
}

/// An annotation with its type parameters replaced by what they are bound to.
pub open spec fn substituted(annotation: Str, bindings: Rows<Str>, depth: nat) -> Option<Str>
    decreases depth_left(depth), 0nat,
{
    let text = trim(annotation);
    if depth > MAX_ANNOTATION_DEPTH {
        None
    } else {
        match get(bindings, text) {
            Some(bound) => Some(bound),
            None => match generic_parts(text) {
                None => Some(text),
                Some(parts) => match generic_args(parts.1) {
                    Err(_) => None,
                    Ok(args) => match substituted_all(args, bindings, depth + 1, args.len()) {
                        None => None,
                        Some(done) => Some(trim(parts.0) + "<"@ + join(done, ","@) + ">"@),
                    },
                },
            },
        }
    }
}

/// The first `n` annotations, each substituted, if that can be done for all of them.
pub open spec fn substituted_all(
    args: Seq<Str>,
    bindings: Rows<Str>,
    depth: nat,
    n: nat,
) -> Option<Seq<Str>>
    decreases depth_left(depth), n + 1,
{
    if n == 0 || n > args.len() {
        Some(Seq::empty())
    } else {
        match substituted_all(args, bindings, depth, (n - 1) as nat) {
            None => None,
            Some(done) => match substituted(args[n - 1], bindings, depth) {
                None => None,
                Some(text) => Some(done.push(text)),
            },
        }
    }
}

proof fn lemma_substituted_all_fails(
    args: Seq<Str>,
    bindings: Rows<Str>,
    depth: nat,
    n: nat,
    m: nat,
)
    requires
        n <= m <= args.len(),
        substituted_all(args, bindings, depth, n) is None,
    ensures
        substituted_all(args, bindings, depth, m) is None,
    decreases m - n,
{
    if n < m {
        lemma_substituted_all_fails(args, bindings, depth, n, (m - 1) as nat);
    }
}

pub open spec fn opt_view(r: Option<String>) -> Option<Str> {
    crate::ast::opt_text(r)
}

pub fn substitute_runtime_annotation(
    annotation: &str,
    bindings: &Table<String>,
    depth: usize,
) -> (r: Option<String>)
    ensures
        opt_view(r) == substituted(annotation@, bindings@, depth as nat),
    decreases depth_left(depth as nat),
{
    if depth > MAX_ANNOTATION_DEPTH {
        return None;
    }
    let text = trimmed(annotation);
    if let Some(bound) = bindings.find(text.as_str()) {
        return Some(bound.clone());
    }
    match generic_annotation(text.as_str()) {
        None => Some(text),
        Some((base, inside)) => {
            let args = match split_generic_args(inside.as_str()) {
                Err(_) => {
                    return None;
                },
                Ok(args) => args,
            };
            assert(texts(args@).len() == args@.len());
            let mut done: Vec<String> = Vec::new();
            let mut i: usize = 0;
            assert(texts(done@) =~= Seq::<Str>::empty());
            while i < args.len()
                invariant
                    i <= args@.len(),
                    depth <= MAX_ANNOTATION_DEPTH,
                    texts(args@).len() == args@.len(),
                    substituted_all(texts(args@), bindings@, (depth + 1) as nat, i as nat) == Some(
                        texts(done@),
                    ),
                    substituted(annotation@, bindings@, depth as nat) == (match substituted_all(
                        texts(args@),
                        bindings@,
                        (depth + 1) as nat,
                        args@.len(),
                    ) {
                        None => None,
                        Some(list) => Some(trim(base@) + "<"@ + join(list, ","@) + ">"@),
                    }),
                decreases args.len() - i,
            {
                assert(texts(args@)[i as int] == args@[i as int]@);
                match substitute_runtime_annotation(args[i].as_str(), bindings, depth + 1) {
                    None => {
                        proof {
                            assert(substituted_all(
                                texts(args@),
                                bindings@,
                                (depth + 1) as nat,
                                (i + 1) as nat,
                            ) is None);
                            lemma_substituted_all_fails(
                                texts(args@),
                                bindings@,
                                (depth + 1) as nat,
                                (i + 1) as nat,
                                args@.len(),
                            );
                        }
                        return None;
                    },
                    Some(part) => {
                        let ghost earlier = done@;
                        done.push(part);
                        proof {
                            lemma_texts_push(earlier, part);
                        }
                    },
                }
                i += 1;
            }
            let inner = join_texts(&done, ",");
            Some(join4(trimmed(base.as_str()).as_str(), "<", inner.as_str(), ">"))
        },
    }
}

} // verus!
