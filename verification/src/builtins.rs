//! Builtin functions that compute on their arguments alone.

use crate::ast::views;
use crate::json::{from_json, json_to_value, to_json, value_to_json, MAX_JSON_BYTES};
use crate::numbers::{too_many, too_many_error};
use crate::outside::{json_text, lower_text, lowercase, parse_json, parsed_json, render_json,
    upper_text, uppercase, SAFE_JSON_DEPTH};
use crate::records::{async_capabilities, async_capabilities_value, duration, duration_value,
    err_value, log_record, log_text, ok_value, some_value, structured_log_json,
    structured_log_value};
use crate::roundtrip::{carried, law_documents_carry_values};
use crate::text::{byte_len, chars_of, decimal, ends_with, has_prefix, has_suffix, join, join2,
    join3, join4, join5, join_texts, length_text, replace_text, replaced, same, size, split,
    split_text, starts_with, text_of, texts, trim, trimmed, Str};
use crate::value::{fail, kind_name, lemma_value_view, show, show_items, told, truthy,
    value_type_name, within_limits, Val, ZapValue, MAX_RUNTIME_COLLECTION_ITEMS};
use crate::world::{ExecutionContext, World};
use vstd::prelude::*;

verus! {

pub const MAX_LOOP_ITERATIONS: usize = 100_000;

// ---------------------------------------------------------------------------
// Arguments
// ---------------------------------------------------------------------------

pub open spec fn arity_error(name: Str, count: int, got: int) -> Str {
    name + " expects "@ + decimal(count) + " arguments, got "@ + decimal(got)
}

/// The result of a builtin that takes a fixed number of arguments.
pub open spec fn with_arity(
    name: Str,
    count: int,
    args: Seq<Val>,
    result: Result<Val, Str>,
) -> Result<Val, Str> {
    if args.len() == count {
        result
    } else {
        Err(arity_error(name, count, args.len() as int))
    }
}

pub fn arity_failure(name: &str, count: usize, got: usize) -> (r: Result<ZapValue, String>)
    ensures
        told(r) == Err::<Val, Str>(arity_error(name@, count as int, got as int)),
{
    Err(
        join5(
            name,
            " expects ",
            length_text(count).as_str(),
            " arguments, got ",
            length_text(got).as_str(),
        ),
    )
}

// ---------------------------------------------------------------------------
// Text
// ---------------------------------------------------------------------------

pub open spec fn char_at(args: Seq<Val>) -> Result<Val, Str> {
    match (args[0], args[1]) {
        (Val::Text(s), Val::Number(i)) => if i < 0 {
            Err("char_at expects a non-negative index"@)
        } else if i >= s.len() {
            Err("char_at index out of range"@)
        } else {
            Ok(Val::Text(seq![s[i as int]]))
        },
        _ => Err("char_at expects text and non-negative index"@),
    }
}

fn do_char_at(args: &Vec<ZapValue>) -> (r: Result<ZapValue, String>)
    requires
        args@.len() == 2,
    ensures
        told(r) == char_at(views(args@)),
{
    match (&args[0], &args[1]) {
        (ZapValue::Text(s), ZapValue::Number(i)) => {
            if *i < 0 {
                return fail("char_at expects a non-negative index");
            }
            let v = chars_of(s.as_str());
            if *i as u64 >= v.len() as u64 {
                return fail("char_at index out of range");
            }
            let mut out: String = String::new();
            out.push(v[*i as usize]);
            assert(out@ =~= seq![s@[*i as int]]);
            Ok(ZapValue::Text(out))
        },
        _ => fail("char_at expects text and non-negative index"),
    }
}

/// The smaller of two numbers.
pub open spec fn least(a: int, b: int) -> int {
    if a < b {
        a
    } else {
        b
    }
}

pub open spec fn substring(args: Seq<Val>) -> Result<Val, Str> {
    match (args[0], args[1], args[2]) {
        (Val::Text(s), Val::Number(start), Val::Number(end)) => if start < 0 || end < 0 {
            Err("substring expects non-negative indices"@)
        } else if start > end {
            Err("substring start must not exceed end"@)
        } else {
            Ok(
                Val::Text(
                    s.subrange(
                        least(start as int, s.len() as int),
                        least(end as int, s.len() as int),
                    ),
                ),
            )
        },
        _ => Err("substring expects text and non-negative start/end indices"@),
    }
}

fn do_substring(args: &Vec<ZapValue>) -> (r: Result<ZapValue, String>)
    requires
        args@.len() == 3,
    ensures
        told(r) == substring(views(args@)),
{
    match (&args[0], &args[1], &args[2]) {
        (ZapValue::Text(s), ZapValue::Number(start), ZapValue::Number(end)) => {
            if *start < 0 || *end < 0 {
                return fail("substring expects non-negative indices");
            }
            if *start > *end {
                return fail("substring start must not exceed end");
            }
            let v = chars_of(s.as_str());
            let from: usize = if (*start as u64) < v.len() as u64 {
                *start as usize
            } else {
                v.len()
            };
            let to: usize = if (*end as u64) < v.len() as u64 {
                *end as usize
            } else {
                v.len()
            };
            Ok(ZapValue::Text(text_of(&v, from, to)))
        },
        _ => fail("substring expects text and non-negative start/end indices"),
    }
}

pub open spec fn codepoints(args: Seq<Val>) -> Result<Val, Str> {
    match args[0] {
        Val::Text(s) => if s.len() > MAX_RUNTIME_COLLECTION_ITEMS {
            Err(too_many("codepoints"@))
        } else {
            Ok(Val::List(Seq::new(s.len(), |i: int| Val::Number(s[i] as u32 as i64))))
        },
        _ => Err("codepoints expects text"@),
    }
}

fn do_codepoints(args: &Vec<ZapValue>) -> (r: Result<ZapValue, String>)
    requires
        args@.len() == 1,
    ensures
        told(r) == codepoints(views(args@)),
{
    broadcast use lemma_value_view;

    match &args[0] {
        ZapValue::Text(s) => {
            let v = chars_of(s.as_str());
            if v.len() > MAX_RUNTIME_COLLECTION_ITEMS {
                return Err(too_many_error("codepoints"));
            }
            let mut out: Vec<ZapValue> = Vec::new();
            let mut i: usize = 0;
            while i < v.len()
                invariant
                    i <= v@.len(),
                    out@.len() == i,
                    forall|j: int|
                        0 <= j < i ==> (#[trigger] out@[j])@ == Val::Number(v@[j] as u32 as i64),
                decreases v.len() - i,
            {
                out.push(ZapValue::Number(v[i] as u32 as i64));
                i += 1;
            }
            assert(views(out@) =~= Seq::new(s@.len(), |i: int| Val::Number(s@[i] as u32 as i64)));
            Ok(ZapValue::List(out))
        },
        _ => fail("codepoints expects text"),
    }
}

/// The texts as values.
pub open spec fn text_values(parts: Seq<Str>) -> Seq<Val> {
    Seq::new(parts.len(), |i: int| Val::Text(parts[i]))
}

pub fn values_of_texts(parts: &Vec<String>) -> (r: Vec<ZapValue>)
    ensures
        views(r@) == text_values(texts(parts@)),
{
    let mut out: Vec<ZapValue> = Vec::new();
    let mut i: usize = 0;
    while i < parts.len()
        invariant
            i <= parts@.len(),
            out@.len() == i,
            forall|j: int| 0 <= j < i ==> (#[trigger] out@[j])@ == Val::Text(parts@[j]@),
        decreases parts.len() - i,
    {
        out.push(ZapValue::Text(parts[i].clone()));
        i += 1;
    }
    assert(views(out@) =~= text_values(texts(parts@)));
    out
}

pub fn list(values: Vec<ZapValue>) -> (r: ZapValue)
    ensures
        r@ == Val::List(views(values@)),
{
    broadcast use lemma_value_view;

    ZapValue::List(values)
}

/// A list of texts, unless there are too many.
pub open spec fn bounded_texts(parts: Seq<Str>, operation: Str) -> Result<Val, Str> {
    if parts.len() > MAX_RUNTIME_COLLECTION_ITEMS {
        Err(too_many(operation))
    } else {
        Ok(Val::List(text_values(parts)))
    }
}

pub fn bounded_text_list(parts: &Vec<String>, operation: &str) -> (r: Result<ZapValue, String>)
    ensures
        told(r) == bounded_texts(texts(parts@), operation@),
{
    assert(texts(parts@).len() == parts@.len());
    if parts.len() > MAX_RUNTIME_COLLECTION_ITEMS {
        Err(too_many_error(operation))
    } else {
        Ok(list(values_of_texts(parts)))
    }
}

pub open spec fn split_text_value(args: Seq<Val>) -> Result<Val, Str> {
    match (args[0], args[1]) {
        (Val::Text(s), Val::Text(separator)) => bounded_texts(split(s, separator), "split"@),
        _ => Err("split expects text and text separator"@),
    }
}

fn do_split(args: &Vec<ZapValue>) -> (r: Result<ZapValue, String>)
    requires
        args@.len() == 2,
    ensures
        told(r) == split_text_value(views(args@)),
{
    match (&args[0], &args[1]) {
        (ZapValue::Text(s), ZapValue::Text(separator)) => bounded_text_list(
            &split_text(s.as_str(), separator.as_str()),
            "split",
        ),
        _ => fail("split expects text and text separator"),
    }
}

pub open spec fn join_values(args: Seq<Val>) -> Result<Val, Str> {
    match (args[0], args[1]) {
        (Val::List(items), Val::Text(separator)) => Ok(
            Val::Text(join(show_items(items), separator)),
        ),
        _ => Err("join expects a list and a separator"@),
    }
}

fn do_join(args: &Vec<ZapValue>) -> (r: Result<ZapValue, String>)
    requires
        args@.len() == 2,
    ensures
        told(r) == join_values(views(args@)),
{
    broadcast use lemma_value_view;

    match (&args[0], &args[1]) {
        (ZapValue::List(items), ZapValue::Text(separator)) => {
            let mut parts: Vec<String> = Vec::new();
            let mut i: usize = 0;
            while i < items.len()
                invariant
                    i <= items@.len(),
                    parts@.len() == i,
                    forall|j: int| 0 <= j < i ==> (#[trigger] parts@[j])@ == show(items@[j]@),
                decreases items.len() - i,
            {
                parts.push(items[i].show());
                i += 1;
            }
            assert(texts(parts@) =~= show_items(views(items@)));
            Ok(ZapValue::Text(join_texts(&parts, separator.as_str())))
        },
        _ => fail("join expects a list and a separator"),
    }
}

/// `trim`, `lower` and `upper`.
pub open spec fn case_value(name: Str, args: Seq<Val>) -> Result<Val, Str> {
    match args[0] {
        Val::Text(s) => Ok(
            Val::Text(
                if name == "trim"@ {
                    trim(s)
                } else if name == "lower"@ {
                    lower_text(s)
                } else {
                    upper_text(s)
                },
            ),
        ),
        _ => Err(name + " expects text"@),
    }
}

fn do_case(name: &str, args: &Vec<ZapValue>) -> (r: Result<ZapValue, String>)
    requires
        args@.len() == 1,
    ensures
        told(r) == case_value(name@, views(args@)),
{
    match &args[0] {
        ZapValue::Text(s) => Ok(
            ZapValue::Text(
                if same(name, "trim") {
                    trimmed(s.as_str())
                } else if same(name, "lower") {
                    lowercase(s.as_str())
                } else {
                    uppercase(s.as_str())
                },
            ),
        ),
        _ => Err(join2(name, " expects text")),
    }
}

pub open spec fn replace_value(args: Seq<Val>) -> Result<Val, Str> {
    match (args[0], args[1], args[2]) {
        (Val::Text(s), Val::Text(from), Val::Text(to)) => Ok(Val::Text(replaced(s, from, to))),
        _ => Err("replace expects text, text, and text"@),
    }
}

fn do_replace(args: &Vec<ZapValue>) -> (r: Result<ZapValue, String>)
    requires
        args@.len() == 3,
    ensures
        told(r) == replace_value(views(args@)),
{
    match (&args[0], &args[1], &args[2]) {
        (ZapValue::Text(s), ZapValue::Text(from), ZapValue::Text(to)) => Ok(
            ZapValue::Text(replace_text(s.as_str(), from.as_str(), to.as_str())),
        ),
        _ => fail("replace expects text, text, and text"),
    }
}

/// `starts_with` and `ends_with`.
pub open spec fn affix_value(name: Str, args: Seq<Val>) -> Result<Val, Str> {
    match (args[0], args[1]) {
        (Val::Text(s), Val::Text(part)) => Ok(
            Val::Bool(
                if name == "starts_with"@ {
                    has_prefix(s, part)
                } else {
                    has_suffix(s, part)
                },
            ),
        ),
        _ => Err(name + " expects text and text"@),
    }
}

fn do_affix(name: &str, args: &Vec<ZapValue>) -> (r: Result<ZapValue, String>)
    requires
        args@.len() == 2,
    ensures
        told(r) == affix_value(name@, views(args@)),
{
    match (&args[0], &args[1]) {
        (ZapValue::Text(s), ZapValue::Text(part)) => Ok(
            ZapValue::Bool(
                if same(name, "starts_with") {
                    starts_with(s.as_str(), part.as_str())
                } else {
                    ends_with(s.as_str(), part.as_str())
                },
            ),
        ),
        _ => Err(join2(name, " expects text and text")),
    }
}

/// The builtins on texts.
pub open spec fn text_builtin(name: Str, args: Seq<Val>) -> Option<Result<Val, Str>> {
    if name == "char_at"@ {
        Some(with_arity(name, 2, args, char_at(args)))
    } else if name == "substring"@ {
        Some(with_arity(name, 3, args, substring(args)))
    } else if name == "codepoints"@ {
        Some(with_arity(name, 1, args, codepoints(args)))
    } else if name == "split"@ {
        Some(with_arity(name, 2, args, split_text_value(args)))
    } else if name == "join"@ {
        Some(with_arity(name, 2, args, join_values(args)))
    } else if name == "trim"@ || name == "lower"@ || name == "upper"@ {
        Some(with_arity(name, 1, args, case_value(name, args)))
    } else if name == "replace"@ {
        Some(with_arity(name, 3, args, replace_value(args)))
    } else if name == "starts_with"@ || name == "ends_with"@ {
        Some(with_arity(name, 2, args, affix_value(name, args)))
    } else if name == "str"@ {
        Some(with_arity(name, 1, args, Ok(Val::Text(show(args[0])))))
    } else {
        None
    }
}

pub open spec fn told_some(r: Option<Result<ZapValue, String>>) -> Option<Result<Val, Str>> {
    match r {
        Some(result) => Some(told(result)),
        None => None,
    }
}

pub fn call_text_builtin(name: &str, args: &Vec<ZapValue>) -> (r: Option<Result<ZapValue, String>>)
    ensures
        told_some(r) == text_builtin(name@, views(args@)),
{
    let n: usize = args.len();
    if same(name, "char_at") {
        if n != 2 {
            return Some(arity_failure(name, 2, n));
        }
        Some(do_char_at(args))
    } else if same(name, "substring") {
        if n != 3 {
            return Some(arity_failure(name, 3, n));
        }
        Some(do_substring(args))
    } else if same(name, "codepoints") {
        if n != 1 {
            return Some(arity_failure(name, 1, n));
        }
        Some(do_codepoints(args))
    } else if same(name, "split") {
        if n != 2 {
            return Some(arity_failure(name, 2, n));
        }
        Some(do_split(args))
    } else if same(name, "join") {
        if n != 2 {
            return Some(arity_failure(name, 2, n));
        }
        Some(do_join(args))
    } else if same(name, "trim") || same(name, "lower") || same(name, "upper") {
        if n != 1 {
            return Some(arity_failure(name, 1, n));
        }
        Some(do_case(name, args))
    } else if same(name, "replace") {
        if n != 3 {
            return Some(arity_failure(name, 3, n));
        }
        Some(do_replace(args))
    } else if same(name, "starts_with") || same(name, "ends_with") {
        if n != 2 {
            return Some(arity_failure(name, 2, n));
        }
        Some(do_affix(name, args))
    } else if same(name, "str") {
        if n != 1 {
            return Some(arity_failure(name, 1, n));
        }
        Some(Ok(ZapValue::Text(args[0].show())))
    } else {
        None
    }
}

// ---------------------------------------------------------------------------
// Results and options
// ---------------------------------------------------------------------------

/// `ok`, `err` and `some`.
pub open spec fn wrap_value(name: Str, args: Seq<Val>) -> Result<Val, Str> {
    Ok(
        if name == "ok"@ {
            Val::ResultOk(Box::new(args[0]))
        } else if name == "err"@ {
            Val::ResultErr(Box::new(args[0]))
        } else {
            Val::OptionSome(Box::new(args[0]))
        },
    )
}

pub open spec fn unwrap_value(args: Seq<Val>) -> Result<Val, Str> {
    match args[0] {
        Val::ResultOk(value) => Ok(*value),
        Val::OptionSome(value) => Ok(*value),
        Val::ResultErr(value) => Err("unwrap failed: "@ + show(*value)),
        Val::OptionNone => Err("unwrap failed: option is none"@),
        _ => Err("unwrap expects a result or option"@),
    }
}

fn do_unwrap(args: &Vec<ZapValue>) -> (r: Result<ZapValue, String>)
    requires
        args@.len() == 1,
    ensures
        told(r) == unwrap_value(views(args@)),
{
    match &args[0] {
        ZapValue::ResultOk(value) => Ok(value.copy()),
        ZapValue::OptionSome(value) => Ok(value.copy()),
        ZapValue::ResultErr(value) => Err(join2("unwrap failed: ", value.show().as_str())),
        ZapValue::OptionNone => fail("unwrap failed: option is none"),
        _ => fail("unwrap expects a result or option"),
    }
}

pub open spec fn unwrap_or_value(args: Seq<Val>) -> Result<Val, Str> {
    match args[0] {
        Val::ResultOk(value) => Ok(*value),
        Val::OptionSome(value) => Ok(*value),
        Val::ResultErr(_) => Ok(args[1]),
        Val::OptionNone => Ok(args[1]),
        _ => Err("unwrap_or expects a result or option"@),
    }
}

fn do_unwrap_or(args: &Vec<ZapValue>) -> (r: Result<ZapValue, String>)
    requires
        args@.len() == 2,
    ensures
        told(r) == unwrap_or_value(views(args@)),
{
    match &args[0] {
        ZapValue::ResultOk(value) => Ok(value.copy()),
        ZapValue::OptionSome(value) => Ok(value.copy()),
        ZapValue::ResultErr(_) => Ok(args[1].copy()),
        ZapValue::OptionNone => Ok(args[1].copy()),
        _ => fail("unwrap_or expects a result or option"),
    }
}

/// `is_ok`, `is_err`, `is_some` and `is_option_none`.
pub open spec fn variant_value(name: Str, args: Seq<Val>) -> Result<Val, Str> {
    Ok(
        Val::Bool(
            if name == "is_ok"@ {
                args[0] is ResultOk
            } else if name == "is_err"@ {
                args[0] is ResultErr
            } else if name == "is_some"@ {
                args[0] is OptionSome
            } else {
                args[0] is OptionNone
            },
        ),
    )
}

fn do_variant(name: &str, args: &Vec<ZapValue>) -> (r: Result<ZapValue, String>)
    requires
        args@.len() == 1,
    ensures
        told(r) == variant_value(name@, views(args@)),
{
    let answer = if same(name, "is_ok") {
        match &args[0] {
            ZapValue::ResultOk(_) => true,
            _ => false,
        }
    } else if same(name, "is_err") {
        match &args[0] {
            ZapValue::ResultErr(_) => true,
            _ => false,
        }
    } else if same(name, "is_some") {
        match &args[0] {
            ZapValue::OptionSome(_) => true,
            _ => false,
        }
    } else {
        match &args[0] {
            ZapValue::OptionNone => true,
            _ => false,
        }
    };
    Ok(ZapValue::Bool(answer))
}

/// The builtins on results and options.
pub open spec fn result_builtin(name: Str, args: Seq<Val>) -> Option<Result<Val, Str>> {
    if name == "ok"@ || name == "err"@ || name == "some"@ {
        Some(with_arity(name, 1, args, wrap_value(name, args)))
    } else if name == "unwrap"@ {
        Some(with_arity(name, 1, args, unwrap_value(args)))
    } else if name == "unwrap_or"@ {
        Some(with_arity(name, 2, args, unwrap_or_value(args)))
    } else if name == "option_none"@ {
        Some(with_arity(name, 0, args, Ok(Val::OptionNone)))
    } else if name == "is_ok"@ || name == "is_err"@ || name == "is_some"@ || name
        == "is_option_none"@ {
        Some(with_arity(name, 1, args, variant_value(name, args)))
    } else {
        None
    }
}

fn call_result_builtin(name: &str, args: &Vec<ZapValue>) -> (r: Option<Result<ZapValue, String>>)
    ensures
        told_some(r) == result_builtin(name@, views(args@)),
{
    let n: usize = args.len();
    let is_ok = same(name, "ok");
    let is_err = same(name, "err");
    if is_ok || is_err || same(name, "some") {
        if n != 1 {
            return Some(arity_failure(name, 1, n));
        }
        let inside = args[0].copy();
        Some(
            Ok(
                if is_ok {
                    ok_value(inside)
                } else if is_err {
                    err_value(inside)
                } else {
                    some_value(inside)
                },
            ),
        )
    } else if same(name, "unwrap") {
        if n != 1 {
            return Some(arity_failure(name, 1, n));
        }
        Some(do_unwrap(args))
    } else if same(name, "unwrap_or") {
        if n != 2 {
            return Some(arity_failure(name, 2, n));
        }
        Some(do_unwrap_or(args))
    } else if same(name, "option_none") {
        if n != 0 {
            return Some(arity_failure(name, 0, n));
        }
        Some(Ok(ZapValue::OptionNone))
    } else if same(name, "is_ok") || same(name, "is_err") || same(name, "is_some") || same(
        name,
        "is_option_none",
    ) {
        if n != 1 {
            return Some(arity_failure(name, 1, n));
        }
        Some(do_variant(name, args))
    } else {
        None
    }
}

// ---------------------------------------------------------------------------
// Assertions, time, logs and JSON
// ---------------------------------------------------------------------------

pub open spec fn assert_value(args: Seq<Val>) -> Result<Val, Str> {
    if args.len() != 1 && args.len() != 2 {
        Err("assert expects one or two arguments, got "@ + decimal(args.len() as int))
    } else if truthy(args[0]) {
        Ok(Val::Nil)
    } else {
        Err((if args.len() == 2 {
            show(args[1])
        } else {
            "assertion failed"@
        }) + ": expected true, got "@ + show(args[0]))
    }
}

fn do_assert(args: &Vec<ZapValue>) -> (r: Result<ZapValue, String>)
    ensures
        told(r) == assert_value(views(args@)),
{
    if args.len() != 1 && args.len() != 2 {
        return Err(
            join2(
                "assert expects one or two arguments, got ",
                length_text(args.len()).as_str(),
            ),
        );
    }
    if args[0].truthy() {
        return Ok(ZapValue::Nil);
    }
    let message = if args.len() == 2 {
        args[1].show()
    } else {
        "assertion failed".to_owned()
    };
    Err(join3(message.as_str(), ": expected true, got ", args[0].show().as_str()))
}

pub open spec fn duration_parts(args: Seq<Val>) -> Result<Val, Str> {
    match args[0] {
        Val::Number(n) => duration(n),
        _ => Err("duration_parts expects milliseconds as a number"@),
    }
}

pub open spec fn duration_between(args: Seq<Val>) -> Result<Val, Str> {
    match (args[0], args[1]) {
        (Val::Number(start), Val::Number(end)) => if i64::MIN <= end - start <= i64::MAX {
            duration((end - start) as i64)
        } else {
            Err("duration_between integer overflow"@)
        },
        _ => Err("duration_between expects two millisecond numbers"@),
    }
}

fn do_duration_parts(args: &Vec<ZapValue>) -> (r: Result<ZapValue, String>)
    requires
        args@.len() == 1,
    ensures
        told(r) == duration_parts(views(args@)),
{
    match &args[0] {
        ZapValue::Number(n) => duration_value(*n),
        _ => fail("duration_parts expects milliseconds as a number"),
    }
}

fn do_duration_between(args: &Vec<ZapValue>) -> (r: Result<ZapValue, String>)
    requires
        args@.len() == 2,
    ensures
        told(r) == duration_between(views(args@)),
{
    match (&args[0], &args[1]) {
        (ZapValue::Number(start), ZapValue::Number(end)) => match end.checked_sub(*start) {
            Some(n) => duration_value(n),
            None => fail("duration_between integer overflow"),
        },
        _ => fail("duration_between expects two millisecond numbers"),
    }
}

/// `log_record` and `log_json`.
pub open spec fn log_value(name: Str, args: Seq<Val>, w: World) -> Result<Val, Str> {
    match args[0] {
        Val::Text(level) => match args[1] {
            Val::Text(message) => match args[2] {
                Val::Dict(fields) => match log_record(level, message, fields) {
                    Err(error) => Err(error),
                    Ok(record) => if name == "log_record"@ {
                        Ok(record)
                    } else {
                        match log_text(record, w) {
                            Ok(text) => Ok(Val::Text(text)),
                            Err(error) => Err(error),
                        }
                    },
                },
                _ => Err(name + " expects fields as a map"@),
            },
            _ => Err(name + " expects message as text"@),
        },
        _ => Err(name + " expects level as text"@),
    }
}

fn do_log(name: &str, args: &Vec<ZapValue>, context: &ExecutionContext) -> (r: Result<
    ZapValue,
    String,
>)
    requires
        args@.len() == 3,
    ensures
        told(r) == log_value(name@, views(args@), context@),
{
    broadcast use lemma_value_view;

    let level = match &args[0] {
        ZapValue::Text(level) => level,
        _ => {
            return Err(join2(name, " expects level as text"));
        },
    };
    let message = match &args[1] {
        ZapValue::Text(message) => message,
        _ => {
            return Err(join2(name, " expects message as text"));
        },
    };
    let fields = match &args[2] {
        ZapValue::Dict(fields) => fields,
        _ => {
            return Err(join2(name, " expects fields as a map"));
        },
    };
    let record = match structured_log_value(level.as_str(), message.as_str(), fields) {
        Ok(record) => record,
        Err(error) => {
            return Err(error);
        },
    };
    if same(name, "log_record") {
        return Ok(record);
    }
    match structured_log_json(&record, context) {
        Ok(text) => Ok(ZapValue::Text(text)),
        Err(error) => Err(error),
    }
}

/// The JSON text of a value.
pub open spec fn written_json(v: Val, w: World) -> Result<Str, Str> {
    match to_json(v, w) {
        Err(error) => Err(error),
        Ok(document) => match json_text(document) {
            Err(error) => Err("json encode failed: "@ + error),
            Ok(text) => if size(text) > MAX_JSON_BYTES {
                Err("json encode failed: output exceeds the "@ + decimal(MAX_JSON_BYTES as int)
                    + " byte limit"@)
            } else {
                Ok(text)
            },
        },
    }
}

/// Whether a written text is read back as a value, unless the value is beyond the limits.
pub open spec fn read_back(text: Str, v: Val) -> bool {
    read_json("from_json"@, text) == (match within_limits(v) {
        Ok(_) => Ok::<Val, Str>(v),
        Err(error) => Err(error),
    })
}

/// Writes a value as a JSON text. A value that documents can carry, within the nesting that is
/// sure to be read, is read back from the text as it was.
pub fn write_json(value: &ZapValue, context: &ExecutionContext) -> (r: Result<String, String>)
    ensures
        told(r) == written_json(value@, context@),
        carried(value@, SAFE_JSON_DEPTH as nat) ==> (r matches Ok(text) ==> read_back(
            text@,
            value@,
        )),
{
    let document = match value_to_json(value, context) {
        Ok(document) => document,
        Err(error) => {
            return Err(error);
        },
    };
    proof {
        if carried(value@, SAFE_JSON_DEPTH as nat) {
            law_documents_carry_values(
                value@,
                SAFE_JSON_DEPTH as nat,
                0,
                0,
                Seq::empty(),
                context@,
            );
        }
    }
    match render_json(&document) {
        Err(error) => Err(join2("json encode failed: ", error.as_str())),
        Ok(text) => if byte_len(text.as_str()) > MAX_JSON_BYTES {
            Err(
                join3(
                    "json encode failed: output exceeds the ",
                    length_text(MAX_JSON_BYTES).as_str(),
                    " byte limit",
                ),
            )
        } else {
            Ok(text)
        },
    }
}

pub open spec fn json_value(args: Seq<Val>, w: World) -> Result<Val, Str> {
    match written_json(args[0], w) {
        Ok(text) => Ok(Val::Text(text)),
        Err(error) => Err(error),
    }
}

fn do_json(args: &Vec<ZapValue>, context: &ExecutionContext) -> (r: Result<ZapValue, String>)
    requires
        args@.len() == 1,
    ensures
        told(r) == json_value(views(args@), context@),
{
    match write_json(&args[0], context) {
        Ok(text) => Ok(ZapValue::Text(text)),
        Err(error) => Err(error),
    }
}

/// Reads a value from a JSON text; `name` is the builtin that reads it.
pub open spec fn read_json(name: Str, text: Str) -> Result<Val, Str> {
    if size(text) > MAX_JSON_BYTES {
        Err(name + " failed: input exceeds the "@ + decimal(MAX_JSON_BYTES as int)
            + " byte limit"@)
    } else {
        match parsed_json(text) {
            Err(error) => Err(name + " failed: "@ + error),
            Ok(document) => match from_json(document) {
                Err(error) => Err(error),
                Ok(value) => match within_limits(value) {
                    Err(error) => Err(error),
                    Ok(_) => Ok(value),
                },
            },
        }
    }
}

fn do_read_json(name: &str, text: &str) -> (r: Result<ZapValue, String>)
    ensures
        told(r) == read_json(name@, text@),
{
    if byte_len(text) > MAX_JSON_BYTES {
        return Err(
            join4(
                name,
                " failed: input exceeds the ",
                length_text(MAX_JSON_BYTES).as_str(),
                " byte limit",
            ),
        );
    }
    let document = match parse_json(text) {
        Ok(document) => document,
        Err(error) => {
            return Err(join3(name, " failed: ", error.as_str()));
        },
    };
    match json_to_value(&document) {
        Err(error) => Err(error),
        Ok(value) => crate::collections::limit_value(value),
    }
}

pub open spec fn from_json_value(args: Seq<Val>) -> Result<Val, Str> {
    match args[0] {
        Val::Text(text) => read_json("from_json"@, text),
        _ => Err("from_json expects text"@),
    }
}

fn do_from_json(args: &Vec<ZapValue>) -> (r: Result<ZapValue, String>)
    requires
        args@.len() == 1,
    ensures
        told(r) == from_json_value(views(args@)),
{
    match &args[0] {
        ZapValue::Text(text) => do_read_json("from_json", text.as_str()),
        _ => fail("from_json expects text"),
    }
}

pub open spec fn from_json_typed(args: Seq<Val>) -> Result<Val, Str> {
    match (args[0], args[1]) {
        (Val::Text(text), Val::Text(expected)) => match read_json("from_json_typed"@, text) {
            Err(error) => Err(error),
            Ok(value) => if kind_name(value) != expected {
                Err("from_json_typed failed: expected "@ + expected + ", got "@ + kind_name(value))
            } else {
                Ok(value)
            },
        },
        _ => Err("from_json_typed expects text and type name"@),
    }
}

fn do_from_json_typed(args: &Vec<ZapValue>) -> (r: Result<ZapValue, String>)
    requires
        args@.len() == 2,
    ensures
        told(r) == from_json_typed(views(args@)),
{
    match (&args[0], &args[1]) {
        (ZapValue::Text(text), ZapValue::Text(expected)) => {
            let value = match do_read_json("from_json_typed", text.as_str()) {
                Ok(value) => value,
                Err(error) => {
                    return Err(error);
                },
            };
            let actual = value_type_name(&value);
            if !same(actual, expected.as_str()) {
                return Err(
                    join4(
                        "from_json_typed failed: expected ",
                        expected.as_str(),
                        ", got ",
                        actual,
                    ),
                );
            }
            Ok(value)
        },
        _ => fail("from_json_typed expects text and type name"),
    }
}

/// The builtins on records: assertions, durations, logs, JSON and requests.
pub open spec fn record_builtin(name: Str, args: Seq<Val>, w: World) -> Option<Result<Val, Str>> {
    if name == "async_capabilities"@ {
        Some(with_arity(name, 0, args, Ok(async_capabilities())))
    } else if name == "log_record"@ || name == "log_json"@ {
        Some(with_arity(name, 3, args, log_value(name, args, w)))
    } else if name == "assert"@ {
        Some(assert_value(args))
    } else if name == "json"@ {
        Some(with_arity(name, 1, args, json_value(args, w)))
    } else if name == "web_validate_request"@ {
        Some(crate::webcheck::validated_request(args))
    } else if name == "from_json"@ {
        Some(with_arity(name, 1, args, from_json_value(args)))
    } else if name == "from_json_typed"@ {
        Some(with_arity(name, 2, args, from_json_typed(args)))
    } else if name == "duration_parts"@ {
        Some(with_arity(name, 1, args, duration_parts(args)))
    } else if name == "duration_between"@ {
        Some(with_arity(name, 2, args, duration_between(args)))
    } else {
        None
    }
}

fn call_record_builtin(name: &str, args: &Vec<ZapValue>, context: &ExecutionContext) -> (r: Option<
    Result<ZapValue, String>,
>)
    ensures
        told_some(r) == record_builtin(name@, views(args@), context@),
{
    let n: usize = args.len();
    if same(name, "async_capabilities") {
        if n != 0 {
            return Some(arity_failure(name, 0, n));
        }
        Some(Ok(async_capabilities_value()))
    } else if same(name, "log_record") || same(name, "log_json") {
        if n != 3 {
            return Some(arity_failure(name, 3, n));
        }
        Some(do_log(name, args, context))
    } else if same(name, "assert") {
        Some(do_assert(args))
    } else if same(name, "json") {
        if n != 1 {
            return Some(arity_failure(name, 1, n));
        }
        Some(do_json(args, context))
    } else if same(name, "web_validate_request") {
        Some(crate::webcheck::web_validate_request(args))
    } else if same(name, "from_json") {
        if n != 1 {
            return Some(arity_failure(name, 1, n));
        }
        Some(do_from_json(args))
    } else if same(name, "from_json_typed") {
        if n != 2 {
            return Some(arity_failure(name, 2, n));
        }
        Some(do_from_json_typed(args))
    } else if same(name, "duration_parts") {
        if n != 1 {
            return Some(arity_failure(name, 1, n));
        }
        Some(do_duration_parts(args))
    } else if same(name, "duration_between") {
        if n != 2 {
            return Some(arity_failure(name, 2, n));
        }
        Some(do_duration_between(args))
    } else {
        None
    }
}

/// The builtins that leave the context as it is.
pub open spec fn pure_builtin(name: Str, args: Seq<Val>, w: World) -> Option<Result<Val, Str>> {
    match text_builtin(name, args) {
        Some(result) => Some(result),
        None => match crate::collections::collection_builtin(name, args) {
            Some(result) => Some(result),
            None => match crate::collections::number_builtin(name, args) {
                Some(result) => Some(result),
                None => match result_builtin(name, args) {
                    Some(result) => Some(result),
                    None => record_builtin(name, args, w),
                },
            },
        },
    }
}

pub fn call_pure_builtin(name: &str, args: &Vec<ZapValue>, context: &ExecutionContext) -> (r:
    Option<Result<ZapValue, String>>)
    ensures
        told_some(r) == pure_builtin(name@, views(args@), context@),
{
    if let Some(result) = call_text_builtin(name, args) {
        return Some(result);
    }
    if let Some(result) = crate::collections::call_collection_builtin(name, args) {
        return Some(result);
    }
    if let Some(result) = crate::collections::call_number_builtin(name, args) {
        return Some(result);
    }
    if let Some(result) = call_result_builtin(name, args) {
        return Some(result);
    }
    call_record_builtin(name, args, context)
}

} // verus!
