//! What the functions of the language give: those on texts, collections, numbers, results and
//! options, and records.

use crate::builtins::{
    affix_value, assert_value, case_value, char_at, codepoints, duration_between, duration_parts,
    from_json_typed, from_json_value, join_values, json_value, log_value, pure_builtin, read_json,
    replace_value, split_text_value, substring, text_values, unwrap_or_value, unwrap_value,
    variant_value, wrap_value,
};
use crate::collections::{
    abs_value, append, contains_value, count_value_of, entries, enumerated, extreme, get_value,
    is_empty_value, keys_value, length, map_set, occurrences, pow_value, range_value, reverse_value,
    sort_value, sum_from, sum_value,
};
use crate::json::{from_json, to_json, JsonM};
use crate::outside::{json_text, parsed_json};
use crate::records::{
    async_capabilities, counted, log_document, log_fields, log_record, log_text, memory_stats,
    store_stats, utc_record,
};
use crate::runtime::{
    arguments_limited, builtin, computed, detached, detached_builtin, spawned, square_root,
    task_cancelled, task_is_ready, task_joined, task_joined_in_time,
};
use crate::semantics::called_builtin;
use crate::system::external_builtin;
use crate::table::{
    get, lemma_get_put_other, lemma_get_put_same, lemma_put_ordered, ordered, put, Rows,
};
use crate::text::{decimal, has_prefix, includes, join, replaced, size, split, trim, Str};
use crate::value::{equal, kind_name, show, show_items, show_rows, truthy, within_limits, Val};
use crate::webcheck::validated_request;
use crate::world::{ask, fresh, World};
use vstd::prelude::*;

verus! {

// ---------------------------------------------------------------------------
// Functions and their names
// ---------------------------------------------------------------------------

/// What tells the names of the functions of the language apart.
pub open spec fn told_apart() -> bool {
    &&& "char_at"@.len() == 7 && "char_at"@[0] == 'c'
    &&& "substring"@.len() == 9 && "substring"@[0] == 's'
    &&& "codepoints"@.len() == 10 && "codepoints"@[0] == 'c'
    &&& "split"@.len() == 5 && "split"@[0] == 's' && "split"@[2] == 'l'
    &&& "join"@.len() == 4 && "join"@[0] == 'j' && "join"@[1] == 'o'
    &&& "trim"@.len() == 4 && "trim"@[0] == 't' && "trim"@[1] == 'r'
    &&& "lower"@.len() == 5 && "lower"@[0] == 'l'
    &&& "upper"@.len() == 5 && "upper"@[0] == 'u'
    &&& "replace"@.len() == 7 && "replace"@[0] == 'r' && "replace"@[2] == 'p'
    &&& "starts_with"@.len() == 11 && "starts_with"@[0] == 's'
    &&& "ends_with"@.len() == 9 && "ends_with"@[0] == 'e' && "ends_with"@[2] == 'd'
    &&& "str"@.len() == 3 && "str"@[0] == 's' && "str"@[1] == 't'
    &&& "len"@.len() == 3 && "len"@[0] == 'l'
    &&& "append"@.len() == 6 && "append"@[0] == 'a' && "append"@[1] == 'p'
    &&& "type"@.len() == 4 && "type"@[0] == 't' && "type"@[1] == 'y'
    &&& "get"@.len() == 3 && "get"@[0] == 'g'
    &&& "map_set"@.len() == 7 && "map_set"@[0] == 'm'
    &&& "keys"@.len() == 4 && "keys"@[0] == 'k'
    &&& "entries"@.len() == 7 && "entries"@[0] == 'e'
    &&& "enumerate"@.len() == 9 && "enumerate"@[0] == 'e' && "enumerate"@[2] == 'u'
    &&& "contains"@.len() == 8 && "contains"@[0] == 'c'
    &&& "is_empty"@.len() == 8 && "is_empty"@[0] == 'i'
    &&& "count"@.len() == 5 && "count"@[0] == 'c'
    &&& "sum"@.len() == 3 && "sum"@[0] == 's' && "sum"@[1] == 'u'
    &&& "reverse"@.len() == 7 && "reverse"@[0] == 'r' && "reverse"@[2] == 'v'
    &&& "sort"@.len() == 4 && "sort"@[0] == 's' && "sort"@[1] == 'o' && "sort"@[2] == 'r'
    &&& "range"@.len() == 5 && "range"@[0] == 'r'
    &&& "abs"@.len() == 3 && "abs"@[0] == 'a'
    &&& "min"@.len() == 3 && "min"@[0] == 'm' && "min"@[1] == 'i'
    &&& "max"@.len() == 3 && "max"@[0] == 'm' && "max"@[1] == 'a'
    &&& "pow"@.len() == 3 && "pow"@[0] == 'p'
    &&& "ok"@.len() == 2
    &&& "err"@.len() == 3 && "err"@[0] == 'e'
    &&& "some"@.len() == 4 && "some"@[0] == 's' && "some"@[1] == 'o' && "some"@[2] == 'm'
    &&& "unwrap"@.len() == 6 && "unwrap"@[0] == 'u'
    &&& "unwrap_or"@.len() == 9 && "unwrap_or"@[0] == 'u'
    &&& "option_none"@.len() == 11 && "option_none"@[0] == 'o'
    &&& "is_ok"@.len() == 5 && "is_ok"@[0] == 'i'
    &&& "is_err"@.len() == 6 && "is_err"@[0] == 'i'
    &&& "is_some"@.len() == 7 && "is_some"@[0] == 'i'
    &&& "is_option_none"@.len() == 14 && "is_option_none"@[0] == 'i'
    &&& "async_capabilities"@.len() == 18
    &&& "log_record"@.len() == 10 && "log_record"@[0] == 'l'
    &&& "log_json"@.len() == 8 && "log_json"@[0] == 'l'
    &&& "assert"@.len() == 6 && "assert"@[0] == 'a' && "assert"@[1] == 's'
    &&& "json"@.len() == 4 && "json"@[0] == 'j' && "json"@[1] == 's'
    &&& "web_validate_request"@.len() == 20
    &&& "from_json"@.len() == 9 && "from_json"@[0] == 'f'
    &&& "from_json_typed"@.len() == 15
    &&& "duration_parts"@.len() == 14 && "duration_parts"@[0] == 'd'
    &&& "duration_between"@.len() == 16
    &&& "memory_stats"@.len() == 12
    &&& "spawn"@.len() == 5 && "spawn"@[0] == 's' && "spawn"@[2] == 'a'
    &&& "task_join"@.len() == 9 && "task_join"@[0] == 't'
    &&& "task_is_ready"@.len() == 13
    &&& "task_cancel"@.len() == 11 && "task_cancel"@[0] == 't'
    &&& "task_join_timeout"@.len() == 17
    &&& "utc_now"@.len() == 7 && "utc_now"@[0] == 'u'
    &&& "sqrt"@.len() == 4 && "sqrt"@[0] == 's' && "sqrt"@[1] == 'q'
}

proof fn lemma_names()
    ensures
        told_apart(),
{
    reveal_strlit("char_at");
    reveal_strlit("substring");
    reveal_strlit("codepoints");
    reveal_strlit("split");
    reveal_strlit("join");
    reveal_strlit("trim");
    reveal_strlit("lower");
    reveal_strlit("upper");
    reveal_strlit("replace");
    reveal_strlit("starts_with");
    reveal_strlit("ends_with");
    reveal_strlit("str");
    reveal_strlit("len");
    reveal_strlit("append");
    reveal_strlit("type");
    reveal_strlit("get");
    reveal_strlit("map_set");
    reveal_strlit("keys");
    reveal_strlit("entries");
    reveal_strlit("enumerate");
    reveal_strlit("contains");
    reveal_strlit("is_empty");
    reveal_strlit("count");
    reveal_strlit("sum");
    reveal_strlit("reverse");
    reveal_strlit("sort");
    reveal_strlit("range");
    reveal_strlit("abs");
    reveal_strlit("min");
    reveal_strlit("max");
    reveal_strlit("pow");
    reveal_strlit("ok");
    reveal_strlit("err");
    reveal_strlit("some");
    reveal_strlit("unwrap");
    reveal_strlit("unwrap_or");
    reveal_strlit("option_none");
    reveal_strlit("is_ok");
    reveal_strlit("is_err");
    reveal_strlit("is_some");
    reveal_strlit("is_option_none");
    reveal_strlit("async_capabilities");
    reveal_strlit("log_record");
    reveal_strlit("log_json");
    reveal_strlit("assert");
    reveal_strlit("json");
    reveal_strlit("web_validate_request");
    reveal_strlit("from_json");
    reveal_strlit("from_json_typed");
    reveal_strlit("duration_parts");
    reveal_strlit("duration_between");
    reveal_strlit("memory_stats");
    reveal_strlit("spawn");
    reveal_strlit("task_join");
    reveal_strlit("task_is_ready");
    reveal_strlit("task_cancel");
    reveal_strlit("task_join_timeout");
    reveal_strlit("utc_now");
    reveal_strlit("sqrt");
    assert("char_at"@.len() == 7 && "char_at"@[0] == 'c');
    assert("substring"@.len() == 9 && "substring"@[0] == 's');
    assert("codepoints"@.len() == 10 && "codepoints"@[0] == 'c');
    assert("split"@.len() == 5 && "split"@[0] == 's' && "split"@[2] == 'l');
    assert("join"@.len() == 4 && "join"@[0] == 'j' && "join"@[1] == 'o');
    assert("trim"@.len() == 4 && "trim"@[0] == 't' && "trim"@[1] == 'r');
    assert("lower"@.len() == 5 && "lower"@[0] == 'l');
    assert("upper"@.len() == 5 && "upper"@[0] == 'u');
    assert("replace"@.len() == 7 && "replace"@[0] == 'r' && "replace"@[2] == 'p');
    assert("starts_with"@.len() == 11 && "starts_with"@[0] == 's');
    assert("ends_with"@.len() == 9 && "ends_with"@[0] == 'e' && "ends_with"@[2] == 'd');
    assert("str"@.len() == 3 && "str"@[0] == 's' && "str"@[1] == 't');
    assert("len"@.len() == 3 && "len"@[0] == 'l');
    assert("append"@.len() == 6 && "append"@[0] == 'a' && "append"@[1] == 'p');
    assert("type"@.len() == 4 && "type"@[0] == 't' && "type"@[1] == 'y');
    assert("get"@.len() == 3 && "get"@[0] == 'g');
    assert("map_set"@.len() == 7 && "map_set"@[0] == 'm');
    assert("keys"@.len() == 4 && "keys"@[0] == 'k');
    assert("entries"@.len() == 7 && "entries"@[0] == 'e');
    assert("enumerate"@.len() == 9 && "enumerate"@[0] == 'e' && "enumerate"@[2] == 'u');
    assert("contains"@.len() == 8 && "contains"@[0] == 'c');
    assert("is_empty"@.len() == 8 && "is_empty"@[0] == 'i');
    assert("count"@.len() == 5 && "count"@[0] == 'c');
    assert("sum"@.len() == 3 && "sum"@[0] == 's' && "sum"@[1] == 'u');
    assert("reverse"@.len() == 7 && "reverse"@[0] == 'r' && "reverse"@[2] == 'v');
    assert("sort"@.len() == 4 && "sort"@[0] == 's' && "sort"@[1] == 'o' && "sort"@[2] == 'r');
    assert("range"@.len() == 5 && "range"@[0] == 'r');
    assert("abs"@.len() == 3 && "abs"@[0] == 'a');
    assert("min"@.len() == 3 && "min"@[0] == 'm' && "min"@[1] == 'i');
    assert("max"@.len() == 3 && "max"@[0] == 'm' && "max"@[1] == 'a');
    assert("pow"@.len() == 3 && "pow"@[0] == 'p');
    assert("ok"@.len() == 2);
    assert("err"@.len() == 3 && "err"@[0] == 'e');
    assert("some"@.len() == 4 && "some"@[0] == 's' && "some"@[1] == 'o' && "some"@[2] == 'm');
    assert("unwrap"@.len() == 6 && "unwrap"@[0] == 'u');
    assert("unwrap_or"@.len() == 9 && "unwrap_or"@[0] == 'u');
    assert("option_none"@.len() == 11 && "option_none"@[0] == 'o');
    assert("is_ok"@.len() == 5 && "is_ok"@[0] == 'i');
    assert("is_err"@.len() == 6 && "is_err"@[0] == 'i');
    assert("is_some"@.len() == 7 && "is_some"@[0] == 'i');
    assert("is_option_none"@.len() == 14 && "is_option_none"@[0] == 'i');
    assert("async_capabilities"@.len() == 18);
    assert("log_record"@.len() == 10 && "log_record"@[0] == 'l');
    assert("log_json"@.len() == 8 && "log_json"@[0] == 'l');
    assert("assert"@.len() == 6 && "assert"@[0] == 'a' && "assert"@[1] == 's');
    assert("json"@.len() == 4 && "json"@[0] == 'j' && "json"@[1] == 's');
    assert("web_validate_request"@.len() == 20);
    assert("from_json"@.len() == 9 && "from_json"@[0] == 'f');
    assert("from_json_typed"@.len() == 15);
    assert("duration_parts"@.len() == 14 && "duration_parts"@[0] == 'd');
    assert("duration_between"@.len() == 16);
    assert("memory_stats"@.len() == 12);
    assert("spawn"@.len() == 5 && "spawn"@[0] == 's' && "spawn"@[2] == 'a');
    assert("task_join"@.len() == 9 && "task_join"@[0] == 't');
    assert("task_is_ready"@.len() == 13);
    assert("task_cancel"@.len() == 11 && "task_cancel"@[0] == 't');
    assert("task_join_timeout"@.len() == 17);
    assert("utc_now"@.len() == 7 && "utc_now"@[0] == 'u');
    assert("sqrt"@.len() == 4 && "sqrt"@[0] == 's' && "sqrt"@[1] == 'q');
}

/// Whether a function of the language, called on arguments, has a result and leaves the context as
/// it is.
pub open spec fn gives(name: Str, args: Seq<Val>, w: World, result: Result<Val, Str>) -> bool {
    computed(name, args, w) == (
        match result {
            Ok(value) => Ok::<Option<Val>, Str>(Some(value)),
            Err(error) => Err(error),
        },
        w,
    )
}

/// Whether a function of the language refuses arguments.
pub open spec fn refuses(name: Str, args: Seq<Val>, w: World) -> bool {
    computed(name, args, w).0 is Err && computed(name, args, w).1 == w
}

/// The functions on texts, by their names. Each takes as many arguments as it needs, and is an
/// error with any other number of them.
pub proof fn law_functions_on_texts(args: Seq<Val>, w: World)
    ensures
        args.len() == 2 ==> gives("char_at"@, args, w, char_at(args)),
        args.len() != 2 ==> refuses("char_at"@, args, w),
        args.len() == 3 ==> gives("substring"@, args, w, substring(args)),
        args.len() != 3 ==> refuses("substring"@, args, w),
        args.len() == 1 ==> gives("codepoints"@, args, w, codepoints(args)),
        args.len() != 1 ==> refuses("codepoints"@, args, w),
        args.len() == 2 ==> gives("split"@, args, w, split_text_value(args)),
        args.len() != 2 ==> refuses("split"@, args, w),
        args.len() == 2 ==> gives("join"@, args, w, join_values(args)),
        args.len() != 2 ==> refuses("join"@, args, w),
        args.len() == 1 ==> gives("trim"@, args, w, case_value("trim"@, args)),
        args.len() != 1 ==> refuses("trim"@, args, w),
        args.len() == 1 ==> gives("lower"@, args, w, case_value("lower"@, args)),
        args.len() != 1 ==> refuses("lower"@, args, w),
        args.len() == 1 ==> gives("upper"@, args, w, case_value("upper"@, args)),
        args.len() != 1 ==> refuses("upper"@, args, w),
        args.len() == 3 ==> gives("replace"@, args, w, replace_value(args)),
        args.len() != 3 ==> refuses("replace"@, args, w),
        args.len() == 2 ==> gives("starts_with"@, args, w, affix_value("starts_with"@, args)),
        args.len() != 2 ==> refuses("starts_with"@, args, w),
        args.len() == 2 ==> gives("ends_with"@, args, w, affix_value("ends_with"@, args)),
        args.len() != 2 ==> refuses("ends_with"@, args, w),
        args.len() == 1 ==> gives("str"@, args, w, Ok(Val::Text(show(args[0])))),
        args.len() != 1 ==> refuses("str"@, args, w),
{
    lemma_names();
}

/// The functions on collections, by their names. Each takes as many arguments as it needs, and is an
/// error with any other number of them.
pub proof fn law_functions_on_collections(args: Seq<Val>, w: World)
    ensures
        args.len() == 1 ==> gives("len"@, args, w, length(args)),
        args.len() != 1 ==> refuses("len"@, args, w),
        args.len() == 2 ==> gives("append"@, args, w, append(args)),
        args.len() != 2 ==> refuses("append"@, args, w),
        args.len() == 1 ==> gives("type"@, args, w, Ok(Val::Text(kind_name(args[0])))),
        args.len() != 1 ==> refuses("type"@, args, w),
        args.len() == 3 ==> gives("get"@, args, w, get_value(args)),
        args.len() != 3 ==> refuses("get"@, args, w),
        args.len() == 3 ==> gives("map_set"@, args, w, map_set(args)),
        args.len() != 3 ==> refuses("map_set"@, args, w),
        args.len() == 1 ==> gives("keys"@, args, w, keys_value(args)),
        args.len() != 1 ==> refuses("keys"@, args, w),
        args.len() == 1 ==> gives("entries"@, args, w, entries(args)),
        args.len() != 1 ==> refuses("entries"@, args, w),
        args.len() == 1 ==> gives("enumerate"@, args, w, enumerated(args)),
        args.len() != 1 ==> refuses("enumerate"@, args, w),
        args.len() == 2 ==> gives("contains"@, args, w, contains_value(args)),
        args.len() != 2 ==> refuses("contains"@, args, w),
        args.len() == 1 ==> gives("is_empty"@, args, w, is_empty_value(args)),
        args.len() != 1 ==> refuses("is_empty"@, args, w),
        args.len() == 2 ==> gives("count"@, args, w, count_value_of(args)),
        args.len() != 2 ==> refuses("count"@, args, w),
        args.len() == 1 ==> gives("sum"@, args, w, sum_value(args)),
        args.len() != 1 ==> refuses("sum"@, args, w),
        args.len() == 1 ==> gives("reverse"@, args, w, reverse_value(args)),
        args.len() != 1 ==> refuses("reverse"@, args, w),
        args.len() == 1 ==> gives("sort"@, args, w, sort_value(args)),
        args.len() != 1 ==> refuses("sort"@, args, w),
        gives("range"@, args, w, range_value(args)),
{
    lemma_names();
}

/// The functions on numbers, by their names. Each takes as many arguments as it needs, and is an
/// error with any other number of them.
pub proof fn law_functions_on_numbers(args: Seq<Val>, w: World)
    ensures
        args.len() == 1 ==> gives("abs"@, args, w, abs_value(args)),
        args.len() != 1 ==> refuses("abs"@, args, w),
        args.len() == 2 ==> gives("min"@, args, w, extreme("min"@, args)),
        args.len() != 2 ==> refuses("min"@, args, w),
        args.len() == 2 ==> gives("max"@, args, w, extreme("max"@, args)),
        args.len() != 2 ==> refuses("max"@, args, w),
        args.len() == 2 ==> gives("pow"@, args, w, pow_value(args)),
        args.len() != 2 ==> refuses("pow"@, args, w),
{
    lemma_names();
}

/// The functions on results and options, by their names. Each takes as many arguments as it needs, and is an
/// error with any other number of them.
pub proof fn law_functions_on_results_and_options(args: Seq<Val>, w: World)
    ensures
        args.len() == 1 ==> gives("ok"@, args, w, wrap_value("ok"@, args)),
        args.len() != 1 ==> refuses("ok"@, args, w),
        args.len() == 1 ==> gives("err"@, args, w, wrap_value("err"@, args)),
        args.len() != 1 ==> refuses("err"@, args, w),
        args.len() == 1 ==> gives("some"@, args, w, wrap_value("some"@, args)),
        args.len() != 1 ==> refuses("some"@, args, w),
        args.len() == 1 ==> gives("unwrap"@, args, w, unwrap_value(args)),
        args.len() != 1 ==> refuses("unwrap"@, args, w),
        args.len() == 2 ==> gives("unwrap_or"@, args, w, unwrap_or_value(args)),
        args.len() != 2 ==> refuses("unwrap_or"@, args, w),
        args.len() == 0 ==> gives("option_none"@, args, w, Ok(Val::OptionNone)),
        args.len() != 0 ==> refuses("option_none"@, args, w),
        args.len() == 1 ==> gives("is_ok"@, args, w, variant_value("is_ok"@, args)),
        args.len() != 1 ==> refuses("is_ok"@, args, w),
        args.len() == 1 ==> gives("is_err"@, args, w, variant_value("is_err"@, args)),
        args.len() != 1 ==> refuses("is_err"@, args, w),
        args.len() == 1 ==> gives("is_some"@, args, w, variant_value("is_some"@, args)),
        args.len() != 1 ==> refuses("is_some"@, args, w),
        args.len() == 1 ==> gives("is_option_none"@, args, w, variant_value("is_option_none"@, args)),
        args.len() != 1 ==> refuses("is_option_none"@, args, w),
{
    lemma_names();
}

/// The functions on records, by their names. Each takes as many arguments as it needs, and is an
/// error with any other number of them.
pub proof fn law_functions_on_records(args: Seq<Val>, w: World)
    ensures
        args.len() == 0 ==> gives("async_capabilities"@, args, w, Ok(async_capabilities())),
        args.len() != 0 ==> refuses("async_capabilities"@, args, w),
        args.len() == 3 ==> gives("log_record"@, args, w, log_value("log_record"@, args, w)),
        args.len() != 3 ==> refuses("log_record"@, args, w),
        args.len() == 3 ==> gives("log_json"@, args, w, log_value("log_json"@, args, w)),
        args.len() != 3 ==> refuses("log_json"@, args, w),
        gives("assert"@, args, w, assert_value(args)),
        args.len() == 1 ==> gives("json"@, args, w, json_value(args, w)),
        args.len() != 1 ==> refuses("json"@, args, w),
        gives("web_validate_request"@, args, w, validated_request(args)),
        args.len() == 1 ==> gives("from_json"@, args, w, from_json_value(args)),
        args.len() != 1 ==> refuses("from_json"@, args, w),
        args.len() == 2 ==> gives("from_json_typed"@, args, w, from_json_typed(args)),
        args.len() != 2 ==> refuses("from_json_typed"@, args, w),
        args.len() == 1 ==> gives("duration_parts"@, args, w, duration_parts(args)),
        args.len() != 1 ==> refuses("duration_parts"@, args, w),
        args.len() == 2 ==> gives("duration_between"@, args, w, duration_between(args)),
        args.len() != 2 ==> refuses("duration_between"@, args, w),
{
    lemma_names();
}

/// A function that the language has is called before one of the host with its name; a name that
/// neither of them has is an error.
pub proof fn law_language_functions_come_first(name: Str, args: Seq<Val>, w: World)
    ensures
        ({
            let (own, w1) = builtin(name, args, w);
            let (other, w2) = external_builtin(name, args, w1);
            let called = called_builtin(name, args, w);
            &&& own is Err ==> called.0 == Err::<Val, Str>(own->Err_0)
            &&& own is Ok && own->Ok_0 is Some ==> called == (
                Ok::<Val, Str>(own->Ok_0->0),
                w1,
            )
            &&& own is Ok && own->Ok_0 is None && other is Err ==> called.0 == Err::<Val, Str>(
                other->Err_0,
            )
            &&& own is Ok && own->Ok_0 is None && other is Ok && other->Ok_0 is Some && called.0
                is Ok ==> called.0 == Ok::<Val, Str>(other->Ok_0->0)
            &&& own is Ok && own->Ok_0 is None && other is Ok && other->Ok_0 is None ==> called.0
                is Err
        }),
{
}

/// A call that ends well gives what the function computes, and a function that fails makes the
/// call fail.
pub proof fn law_calls_give_what_is_computed(name: Str, args: Seq<Val>, w: World)
    ensures
        builtin(name, args, w).0 is Ok && builtin(name, args, w).0->Ok_0 is Some ==> exists|
            charged: World,
        |
            (#[trigger] computed(name, args, charged)).0 == builtin(name, args, w).0
                && charged.frames == w.frames && charged.cells == w.cells && charged.output
                == w.output,
{
    let (charge, charged) = crate::world::reserve_bytes(
        w,
        crate::runtime::call_cost(name, args.len()),
    );
    let (limits, tested) = if name == "memory_stats"@ {
        (Ok(()), charged)
    } else {
        crate::runtime::validate_all(args, 0, charged)
    };
    lemma_testing_changes_little(args, 0, charged);
    if builtin(name, args, w).0 is Ok && builtin(name, args, w).0->Ok_0 is Some {
        assert(computed(name, args, tested).0 == builtin(name, args, w).0);
    }
}

proof fn lemma_testing_changes_little(args: Seq<Val>, i: nat, w: World)
    ensures
        ({
            let after = crate::runtime::validate_all(args, i, w).1;
            after.frames == w.frames && after.cells == w.cells && after.output == w.output
        }),
    decreases args.len() - i,
{
    if i < args.len() {
        lemma_testing_changes_little(args, i + 1, crate::world::validate(w, args[i as int]).1);
    }
}

// ---------------------------------------------------------------------------
// Texts
// ---------------------------------------------------------------------------

/// A character is taken by its place, counted from zero; a place outside the text is an error.
pub proof fn law_characters_by_place(s: Str, i: i64)
    ensures
        char_at(seq![Val::Text(s), Val::Number(i)]) is Ok <==> 0 <= i < s.len(),
        0 <= i < s.len() ==> char_at(seq![Val::Text(s), Val::Number(i)]) == Ok::<Val, Str>(
            Val::Text(seq![s[i as int]]),
        ),
{
}

/// A part of a text goes from one place up to, and not with, another. What is beyond the end is
/// not there; places that are negative or cross each other are an error.
pub proof fn law_parts_by_place(s: Str, start: i64, end: i64, k: int)
    ensures
        ({
            let r = substring(seq![Val::Text(s), Val::Number(start), Val::Number(end)]);
            &&& r is Ok <==> 0 <= start <= end
            &&& 0 <= start <= end <= s.len() ==> r->Ok_0 is Text && r->Ok_0->Text_0.len() == end
                - start
            &&& 0 <= start <= end && start >= s.len() ==> r == Ok::<Val, Str>(
                Val::Text(Seq::empty()),
            )
            &&& 0 <= start <= s.len() <= end ==> r == Ok::<Val, Str>(
                Val::Text(s.skip(start as int)),
            )
            &&& 0 <= start <= end && 0 <= k < end - start && start + k < s.len()
                ==> r->Ok_0->Text_0[k] == s[start + k]
        }),
{
    let r = substring(seq![Val::Text(s), Val::Number(start), Val::Number(end)]);
    if 0 <= start <= end && start >= s.len() {
        assert(r->Ok_0->Text_0 =~= Seq::<char>::empty());
    }
    if 0 <= start <= s.len() <= end {
        assert(r->Ok_0->Text_0 =~= s.skip(start as int));
    }
}

/// The codepoints of a text are the numbers of its characters, one for one.
pub proof fn law_codepoints(s: Str, k: int)
    requires
        s.len() <= 100_000,
        0 <= k < s.len(),
    ensures
        codepoints(seq![Val::Text(s)]) is Ok,
        codepoints(seq![Val::Text(s)])->Ok_0 is List,
        codepoints(seq![Val::Text(s)])->Ok_0->List_0.len() == s.len(),
        codepoints(seq![Val::Text(s)])->Ok_0->List_0[k] == Val::Number(s[k] as u32 as i64),
{
}

/// Splitting a text and joining the parts with the same separator gives the text back, and no part
/// holds the separator.
pub proof fn law_splitting_and_joining(s: Str, separator: Str, k: int)
    requires
        split_text_value(seq![Val::Text(s), Val::Text(separator)]) is Ok,
    ensures
        ({
            let parts = split_text_value(seq![Val::Text(s), Val::Text(separator)])->Ok_0;
            &&& parts is List
            &&& join_values(seq![parts, Val::Text(separator)]) == Ok::<Val, Str>(Val::Text(s))
            &&& separator.len() > 0 && 0 <= k < parts->List_0.len() ==> parts->List_0[k] is Text
                && !includes(parts->List_0[k]->Text_0, separator)
        }),
{
    let parts = split(s, separator);
    crate::roundtrip::law_joined_parts_make_up_the_text(s, separator);
    assert(show_items(text_values(parts)) =~= parts);
    if separator.len() > 0 && 0 <= k < parts.len() {
        crate::wording::law_parts_hold_no_separator(s, separator, k);
    }
}

/// Joining puts the texts of the items one behind the other, with the separator between each two.
pub proof fn law_joining(items: Seq<Val>, separator: Str)
    ensures
        items.len() == 0 ==> join_values(seq![Val::List(items), Val::Text(separator)]) == Ok::<
            Val,
            Str,
        >(Val::Text(Seq::empty())),
        items.len() == 1 ==> join_values(seq![Val::List(items), Val::Text(separator)]) == Ok::<
            Val,
            Str,
        >(Val::Text(show(items[0]))),
        items.len() > 1 ==> join_values(seq![Val::List(items), Val::Text(separator)]) == Ok::<
            Val,
            Str,
        >(
            Val::Text(
                join_values(
                    seq![Val::List(items.drop_last()), Val::Text(separator)],
                )->Ok_0->Text_0 + separator + show(items.last()),
            ),
        ),
{
    if items.len() > 1 {
        assert(show_items(items.drop_last()) =~= show_items(items).drop_last());
    }
}

/// Trimming, replacing and the tests for beginnings and ends are those of texts.
pub proof fn law_texts_are_treated_as_texts(s: Str, a: Str, b: Str)
    ensures
        case_value("trim"@, seq![Val::Text(s)]) == Ok::<Val, Str>(Val::Text(trim(s))),
        replace_value(seq![Val::Text(s), Val::Text(a), Val::Text(b)]) == Ok::<Val, Str>(
            Val::Text(replaced(s, a, b)),
        ),
        affix_value("starts_with"@, seq![Val::Text(s), Val::Text(a)]) == Ok::<Val, Str>(
            Val::Bool(exists|rest: Str| s == #[trigger] (a + rest)),
        ),
        affix_value("ends_with"@, seq![Val::Text(s), Val::Text(a)]) == Ok::<Val, Str>(
            Val::Bool(exists|rest: Str| s == #[trigger] (rest + a)),
        ),
{
    lemma_names();
    crate::wording::law_beginnings_and_ends(s, a);
}

/// The text of a value: a text is its own, a number is written in decimal, a list and a map show
/// what they hold.
pub proof fn law_values_as_texts(s: Str, n: i64, items: Seq<Val>, v: Val)
    ensures
        show(Val::Text(s)) == s,
        show(Val::Number(n)) == decimal(n as int),
        show(Val::Bool(true)) == "true"@,
        show(Val::Bool(false)) == "false"@,
        show(Val::Nil) == "none"@,
        show(Val::List(Seq::empty())) == "["@ + "]"@,
        items.len() == 1 ==> show(Val::List(items)) == "["@ + show(items[0]) + "]"@,
        items.len() == 2 ==> show(Val::List(items)) == "["@ + (show(items[0]) + ", "@ + show(
            items[1],
        )) + "]"@,
        show(Val::ResultOk(Box::new(v))) == "ok("@ + show(v) + ")"@,
        show(Val::ResultErr(Box::new(v))) == "err("@ + show(v) + ")"@,
        show(Val::OptionSome(Box::new(v))) == "some("@ + show(v) + ")"@,
        show(Val::OptionNone) == "none"@,
{
    reveal_with_fuel(show, 3);
    reveal_with_fuel(join, 3);
    assert(show(Val::List(Seq::empty())) =~= "["@ + "]"@);
    if items.len() == 2 {
        assert(show_items(items).drop_last() =~= seq![show(items[0])]);
    }
}

// ---------------------------------------------------------------------------
// Lists and maps
// ---------------------------------------------------------------------------

/// The length of a text is the number of its characters, that of a list or a map the number of
/// its items; what has no items is empty. Other values have no length.
pub proof fn law_lengths(v: Val)
    ensures
        v is Text ==> length(seq![v]) == Ok::<Val, Str>(Val::Number(v->Text_0.len() as i64)),
        v is List ==> length(seq![v]) == Ok::<Val, Str>(Val::Number(v->List_0.len() as i64)),
        v is Dict ==> length(seq![v]) == Ok::<Val, Str>(Val::Number(v->Dict_0.len() as i64)),
        v is Text || v is List || v is Dict <==> length(seq![v]) is Ok,
        v is Text ==> is_empty_value(seq![v]) == Ok::<Val, Str>(
            Val::Bool(v->Text_0 == Seq::<char>::empty()),
        ),
        v is List ==> is_empty_value(seq![v]) == Ok::<Val, Str>(
            Val::Bool(v->List_0 == Seq::<Val>::empty()),
        ),
        v is Dict ==> is_empty_value(seq![v]) == Ok::<Val, Str>(
            Val::Bool(v->Dict_0 == Seq::<(Str, Val)>::empty()),
        ),
        v is Text || v is List || v is Dict <==> is_empty_value(seq![v]) is Ok,
{
    if v is Text && v->Text_0.len() == 0 {
        assert(v->Text_0 =~= Seq::<char>::empty());
    }
    if v is List && v->List_0.len() == 0 {
        assert(v->List_0 =~= Seq::<Val>::empty());
    }
    if v is Dict && v->Dict_0.len() == 0 {
        assert(v->Dict_0 =~= Seq::<(Str, Val)>::empty());
    }
}

/// Appending puts a value behind the items of a list, which stay as they are; a list never gets
/// more than 100000 items in this way.
pub proof fn law_appending(items: Seq<Val>, v: Val)
    ensures
        ({
            let r = append(seq![Val::List(items), v]);
            &&& r is Ok ==> {
                &&& r->Ok_0 is List
                &&& r->Ok_0->List_0.len() == items.len() + 1
                &&& r->Ok_0->List_0.last() == v
                &&& r->Ok_0->List_0.drop_last() == items
            }
            &&& items.len() >= 100_000 ==> r is Err
            &&& items.len() < 100_000 ==> (r is Ok <==> within_limits(
                Val::List(items.push(v)),
            ) is Ok)
        }),
{
    assert(items.push(v).drop_last() =~= items);
}

/// What has been set in a map is got from it, under its key alone, and a key that is not there
/// gives the default.
pub proof fn law_setting_and_getting(rows: Rows<Val>, key: Str, other: Str, v: Val, default: Val)
    requires
        ordered(rows),
        map_set(seq![Val::Dict(rows), Val::Text(key), v]) is Ok,
    ensures
        ({
            let set = map_set(seq![Val::Dict(rows), Val::Text(key), v])->Ok_0;
            &&& set is Dict
            &&& get_value(seq![set, Val::Text(key), default]) == Ok::<Val, Str>(v)
            &&& other != key ==> get_value(seq![set, Val::Text(other), default]) == get_value(
                seq![Val::Dict(rows), Val::Text(other), default],
            )
            &&& get_value(seq![Val::Dict(Seq::empty()), Val::Text(key), default]) == Ok::<Val, Str>(
                default,
            )
        }),
{
    lemma_get_put_same(rows, key, v);
    if other != key {
        lemma_get_put_other(rows, key, v, other);
    }
    let none: Rows<Val> = Seq::empty();
    crate::table::lemma_get_found(none, key);
}

/// The keys of a map, and its entries, come in the order of the map, one for each entry.
pub proof fn law_keys_and_entries(rows: Rows<Val>, i: int)
    requires
        0 <= i < rows.len() <= 100_000,
    ensures
        keys_value(seq![Val::Dict(rows)]) is Ok,
        keys_value(seq![Val::Dict(rows)])->Ok_0 is List,
        keys_value(seq![Val::Dict(rows)])->Ok_0->List_0.len() == rows.len(),
        keys_value(seq![Val::Dict(rows)])->Ok_0->List_0[i] == Val::Text(rows[i].0),
        entries(seq![Val::Dict(rows)]) is Ok,
        entries(seq![Val::Dict(rows)])->Ok_0 is List,
        entries(seq![Val::Dict(rows)])->Ok_0->List_0.len() == rows.len(),
        entries(seq![Val::Dict(rows)])->Ok_0->List_0[i] is Dict,
        get(entries(seq![Val::Dict(rows)])->Ok_0->List_0[i]->Dict_0, "key"@) == Some(
            Val::Text(rows[i].0),
        ),
        get(entries(seq![Val::Dict(rows)])->Ok_0->List_0[i]->Dict_0, "value"@) == Some(rows[i].1),
{
    reveal_strlit("key");
    reveal_strlit("value");
    assert("key"@.len() == 3 && "value"@.len() == 5);
    let none: Rows<Val> = Seq::empty();
    let key = Val::Text(rows[i].0);
    lemma_put_ordered(none, "key"@, key);
    lemma_get_put_same(none, "key"@, key);
    lemma_get_put_same(put(none, "key"@, key), "value"@, rows[i].1);
    lemma_get_put_other(put(none, "key"@, key), "value"@, rows[i].1, "key"@);
}

/// Enumerating gives each item with its place, counted from zero.
pub proof fn law_enumerating(items: Seq<Val>, i: int)
    requires
        0 <= i < items.len() <= 100_000,
    ensures
        enumerated(seq![Val::List(items)]) is Ok,
        enumerated(seq![Val::List(items)])->Ok_0 is List,
        enumerated(seq![Val::List(items)])->Ok_0->List_0.len() == items.len(),
        enumerated(seq![Val::List(items)])->Ok_0->List_0[i] is Dict,
        get(enumerated(seq![Val::List(items)])->Ok_0->List_0[i]->Dict_0, "index"@) == Some(
            Val::Number(i as i64),
        ),
        get(enumerated(seq![Val::List(items)])->Ok_0->List_0[i]->Dict_0, "value"@) == Some(
            items[i],
        ),
{
    reveal_strlit("index");
    reveal_strlit("value");
    assert("index"@[0] == 'i' && "value"@[0] == 'v');
    let none: Rows<Val> = Seq::empty();
    let place = Val::Number(i as i64);
    lemma_put_ordered(none, "index"@, place);
    lemma_get_put_same(none, "index"@, place);
    lemma_get_put_same(put(none, "index"@, place), "value"@, items[i]);
    lemma_get_put_other(put(none, "index"@, place), "value"@, items[i], "index"@);
}

proof fn lemma_occurrences(items: Seq<Val>, item: Val, n: nat)
    requires
        n <= items.len(),
    ensures
        occurrences(items, item, n) <= n,
        occurrences(items, item, n) > 0 <==> exists|i: int|
            0 <= i < n && equal(#[trigger] items[i], item),
        occurrences(items, item, n) == n <==> forall|i: int|
            0 <= i < n ==> equal(#[trigger] items[i], item),
    decreases n,
{
    if n > 0 {
        lemma_occurrences(items, item, (n - 1) as nat);
        if equal(items[n - 1], item) {
            assert(0 <= n - 1 < n && equal(items[n - 1], item));
        }
    }
}

proof fn lemma_occurrences_add(a: Seq<Val>, b: Seq<Val>, item: Val, n: nat)
    requires
        n <= b.len(),
    ensures
        occurrences(a + b, item, a.len() + n) == occurrences(a, item, a.len()) + occurrences(
            b,
            item,
            n,
        ),
    decreases n,
{
    if n > 0 {
        lemma_occurrences_add(a, b, item, (n - 1) as nat);
        assert((a + b)[a.len() + n - 1] == b[n - 1]);
    } else {
        lemma_occurrences_front(a, b, item, a.len());
    }
}

proof fn lemma_occurrences_front(a: Seq<Val>, b: Seq<Val>, item: Val, n: nat)
    requires
        n <= a.len(),
    ensures
        occurrences(a + b, item, n) == occurrences(a, item, n),
    decreases n,
{
    if n > 0 {
        lemma_occurrences_front(a, b, item, (n - 1) as nat);
        assert((a + b)[n - 1] == a[n - 1]);
    }
}

/// A text holds a part if the part stands in it, a list holds a value if one of its items is equal
/// to it, a map holds a key if the key is bound.
pub proof fn law_containing(s: Str, part: Str, items: Seq<Val>, rows: Rows<Val>, v: Val)
    ensures
        contains_value(seq![Val::Text(s), Val::Text(part)]) == Ok::<Val, Str>(
            Val::Bool(
                exists|before: Str, behind: Str| s == #[trigger] (before + part + behind),
            ),
        ),
        contains_value(seq![Val::List(items), v]) == Ok::<Val, Str>(
            Val::Bool(exists|i: int| 0 <= i < items.len() && equal(#[trigger] items[i], v)),
        ),
        contains_value(seq![Val::Dict(rows), Val::Text(part)]) == Ok::<Val, Str>(
            Val::Bool(get(rows, part) is Some),
        ),
{
    crate::wording::law_parts_stand_between_the_rest(s, part);
    lemma_occurrences(items, v, items.len());
}

/// Counting finds each item that is equal to a value: none in an empty list, and in two lists put
/// together as many as in both.
pub proof fn law_counting(a: Seq<Val>, b: Seq<Val>, v: Val)
    requires
        a.len() + b.len() <= 100_000,
    ensures
        count_value_of(seq![Val::List(Seq::empty()), v]) == Ok::<Val, Str>(Val::Number(0)),
        count_value_of(seq![Val::List(seq![v]), v]) == Ok::<Val, Str>(
            Val::Number(if equal(v, v) { 1 } else { 0 }),
        ),
        count_value_of(seq![Val::List(a), v]) is Ok,
        count_value_of(seq![Val::List(a), v])->Ok_0 is Number,
        count_value_of(seq![Val::List(a + b), v])->Ok_0->Number_0 == count_value_of(
            seq![Val::List(a), v],
        )->Ok_0->Number_0 + count_value_of(seq![Val::List(b), v])->Ok_0->Number_0,
        count_value_of(seq![Val::List(a), v])->Ok_0->Number_0 == a.len() <==> forall|i: int|
            0 <= i < a.len() ==> equal(#[trigger] a[i], v),
{
    reveal_with_fuel(occurrences, 2);
    lemma_occurrences(a, v, a.len());
    lemma_occurrences(b, v, b.len());
    lemma_occurrences(a + b, v, (a + b).len());
    lemma_occurrences_add(a, b, v, b.len());
}

/// The mathematical sum of the first `n` numbers of a list.
pub open spec fn total(items: Seq<Val>, n: nat) -> int
    decreases n,
{
    if n == 0 {
        0
    } else {
        total(items, (n - 1) as nat) + items[n - 1]->Number_0
    }
}

proof fn lemma_sum(items: Seq<Val>, i: nat, sum: i64)
    requires
        i <= items.len(),
        sum == total(items, i),
    ensures
        sum_from(items, i, sum) is Ok ==> sum_from(items, i, sum) == Ok::<Val, Str>(
            Val::Number(total(items, items.len()) as i64),
        ) && i64::MIN <= total(items, items.len()) <= i64::MAX,
        sum_from(items, i, sum) is Ok <==> forall|k: int|
            i <= k < items.len() ==> (#[trigger] items[k]) is Number && i64::MIN <= total(
                items,
                (k + 1) as nat,
            ) <= i64::MAX,
    decreases items.len() - i,
{
    if i < items.len() {
        assert(total(items, i + 1) == total(items, i) + items[i as int]->Number_0);
        if let Val::Number(n) = items[i as int] {
            if i64::MIN <= sum + n <= i64::MAX {
                lemma_sum(items, i + 1, (sum + n) as i64);
            } else {
                assert(!(i64::MIN <= total(items, (i as int + 1) as nat) <= i64::MAX));
            }
        }
    }
}

/// A sum is that of all numbers of a list. It fails where an item is no number, and where a sum on
/// the way has no place in 64 bits.
pub proof fn law_sums(items: Seq<Val>)
    ensures
        sum_value(seq![Val::List(items)]) is Ok ==> sum_value(seq![Val::List(items)]) == Ok::<
            Val,
            Str,
        >(Val::Number(total(items, items.len()) as i64)),
        sum_value(seq![Val::List(items)]) is Ok <==> forall|k: int|
            0 <= k < items.len() ==> (#[trigger] items[k]) is Number && -0x8000_0000_0000_0000
                <= total(items, (k + 1) as nat) <= 0x7fff_ffff_ffff_ffff,
        sum_value(seq![Val::List(Seq::empty())]) == Ok::<Val, Str>(Val::Number(0)),
{
    lemma_sum(items, 0, 0);
}

/// Reversing puts the last item first; reversing again gives the list back.
pub proof fn law_reversing(items: Seq<Val>, i: int)
    ensures
        reverse_value(seq![Val::List(items)]) is Ok,
        reverse_value(seq![Val::List(items)])->Ok_0 is List,
        reverse_value(seq![Val::List(items)])->Ok_0->List_0.len() == items.len(),
        0 <= i < items.len() ==> reverse_value(seq![Val::List(items)])->Ok_0->List_0[i]
            == items[items.len() - 1 - i],
        reverse_value(seq![reverse_value(seq![Val::List(items)])->Ok_0]) == Ok::<Val, Str>(
            Val::List(items),
        ),
{
    assert(items.reverse().reverse() =~= items);
}

/// A range of one number counts from zero, one of two from the first, up to and not with the last.
pub proof fn law_ranges(start: i64, end: i64)
    ensures
        range_value(seq![Val::Number(end)]) == range_value(seq![Val::Number(0), Val::Number(end)]),
        crate::numbers::range_values(start, end) is Ok ==> range_value(
            seq![Val::Number(start), Val::Number(end)],
        ) == Ok::<Val, Str>(Val::List(crate::numbers::range_values(start, end)->Ok_0)),
        crate::numbers::range_values(start, end) is Err ==> range_value(
            seq![Val::Number(start), Val::Number(end)],
        ) is Err,
{
}

/// A list of numbers is sorted as numbers and one of texts as texts; a list of anything else is
/// not sorted.
pub proof fn law_only_numbers_or_texts_are_sorted(items: Seq<Val>)
    ensures
        sort_value(seq![Val::List(items)]) is Ok <==> (forall|i: int|
            0 <= i < items.len() ==> (#[trigger] items[i]) is Number) || (forall|i: int|
            0 <= i < items.len() ==> (#[trigger] items[i]) is Text),
{
}

// ---------------------------------------------------------------------------
// Numbers
// ---------------------------------------------------------------------------

/// The absolute value is the number or its negation, and not negative; the smallest number has
/// none.
pub proof fn law_absolute_values(n: i64)
    ensures
        n >= 0 ==> abs_value(seq![Val::Number(n)]) == Ok::<Val, Str>(Val::Number(n)),
        n < 0 && n != i64::MIN ==> abs_value(seq![Val::Number(n)]) == Ok::<Val, Str>(
            Val::Number((-n) as i64),
        ),
        n == i64::MIN ==> abs_value(seq![Val::Number(n)]) is Err,
{
}

/// The smaller of two numbers is one of them and not greater than either, the greater one not
/// smaller than either.
pub proof fn law_smaller_and_greater(x: i64, y: i64)
    ensures
        extreme("min"@, seq![Val::Number(x), Val::Number(y)]) == Ok::<Val, Str>(
            Val::Number(if x <= y { x } else { y }),
        ),
        extreme("max"@, seq![Val::Number(x), Val::Number(y)]) == Ok::<Val, Str>(
            Val::Number(if x >= y { x } else { y }),
        ),
{
    lemma_names();
}

// ---------------------------------------------------------------------------
// Results and options
// ---------------------------------------------------------------------------

/// What is wrapped as a success or an option is unwrapped again; an error and nothing give the
/// default, or fail where there is none. Other values are not unwrapped.
pub proof fn law_wrapping_and_unwrapping(v: Val, default: Val)
    ensures
        ({
            let good = wrap_value("ok"@, seq![v])->Ok_0;
            let bad = wrap_value("err"@, seq![v])->Ok_0;
            let there = wrap_value("some"@, seq![v])->Ok_0;
            &&& good == Val::ResultOk(Box::new(v))
            &&& bad == Val::ResultErr(Box::new(v))
            &&& there == Val::OptionSome(Box::new(v))
            &&& unwrap_value(seq![good]) == Ok::<Val, Str>(v)
            &&& unwrap_value(seq![there]) == Ok::<Val, Str>(v)
            &&& unwrap_value(seq![bad]) is Err
            &&& unwrap_value(seq![Val::OptionNone]) is Err
            &&& unwrap_or_value(seq![good, default]) == Ok::<Val, Str>(v)
            &&& unwrap_or_value(seq![there, default]) == Ok::<Val, Str>(v)
            &&& unwrap_or_value(seq![bad, default]) == Ok::<Val, Str>(default)
            &&& unwrap_or_value(seq![Val::OptionNone, default]) == Ok::<Val, Str>(default)
            &&& !(v is ResultOk || v is ResultErr || v is OptionSome || v is OptionNone)
                ==> unwrap_value(seq![v]) is Err && unwrap_or_value(seq![v, default]) is Err
        }),
{
    lemma_names();
}

/// The tests for results and options are true of their own variant alone.
pub proof fn law_variants_are_told_apart(v: Val)
    ensures
        variant_value("is_ok"@, seq![v]) == Ok::<Val, Str>(Val::Bool(v is ResultOk)),
        variant_value("is_err"@, seq![v]) == Ok::<Val, Str>(Val::Bool(v is ResultErr)),
        variant_value("is_some"@, seq![v]) == Ok::<Val, Str>(Val::Bool(v is OptionSome)),
        variant_value("is_option_none"@, seq![v]) == Ok::<Val, Str>(Val::Bool(v is OptionNone)),
{
    lemma_names();
}

/// An assertion passes if and only if its condition counts as true.
pub proof fn law_assertions(v: Val, message: Val)
    ensures
        truthy(v) ==> assert_value(seq![v]) == Ok::<Val, Str>(Val::Nil) && assert_value(
            seq![v, message],
        ) == Ok::<Val, Str>(Val::Nil),
        !truthy(v) ==> assert_value(seq![v]) is Err && assert_value(seq![v, message]) is Err,
        !truthy(v) ==> has_prefix(assert_value(seq![v, message])->Err_0, show(message)),
{
    if !truthy(v) {
        let error = assert_value(seq![v, message])->Err_0;
        let shown = show(message);
        assert(error.subrange(0, shown.len() as int) =~= shown);
    }
}

// ---------------------------------------------------------------------------
// Records
// ---------------------------------------------------------------------------

/// The duration between two times is that of their difference, from the first to the second.
pub proof fn law_durations_between(start: i64, end: i64)
    ensures
        i64::MIN <= end - start <= i64::MAX ==> duration_between(
            seq![Val::Number(start), Val::Number(end)],
        ) == duration_parts(seq![Val::Number((end - start) as i64)]),
        !(i64::MIN <= end - start <= i64::MAX) ==> duration_between(
            seq![Val::Number(start), Val::Number(end)],
        ) is Err,
{
}

/// A log record holds what it was made of. It is made only of a known level, a message of 1 to
/// 8192 bytes, and at most 64 fields with names of 1 to 256 bytes.
pub proof fn law_log_records(level: Str, message: Str, fields: Rows<Val>)
    ensures
        log_record(level, message, fields) is Ok <==> {
            &&& {
                ||| level == "trace"@
                ||| level == "debug"@
                ||| level == "info"@
                ||| level == "warn"@
                ||| level == "error"@
            }
            &&& 1 <= size(message) <= 8_192
            &&& fields.len() <= 64
            &&& forall|i: int|
                0 <= i < fields.len() ==> 1 <= size((#[trigger] fields[i]).0) <= 256
        },
        log_record(level, message, fields) is Ok ==> {
            let record = log_record(level, message, fields)->Ok_0;
            &&& record is Dict
            &&& get(record->Dict_0, "level"@) == Some(Val::Text(level))
            &&& get(record->Dict_0, "message"@) == Some(Val::Text(message))
            &&& get(record->Dict_0, "fields"@) == Some(Val::Dict(fields))
        },
{
    reveal_strlit("level");
    reveal_strlit("message");
    reveal_strlit("fields");
    assert("level"@.len() == 5 && "message"@.len() == 7 && "fields"@.len() == 6);
    let none: Rows<Val> = Seq::empty();
    let a = put(none, "level"@, Val::Text(level));
    let b = put(a, "message"@, Val::Text(message));
    lemma_put_ordered(none, "level"@, Val::Text(level));
    lemma_put_ordered(a, "message"@, Val::Text(message));
    lemma_get_put_same(none, "level"@, Val::Text(level));
    lemma_get_put_same(a, "message"@, Val::Text(message));
    lemma_get_put_same(b, "fields"@, Val::Dict(fields));
    lemma_get_put_other(a, "message"@, Val::Text(message), "level"@);
    lemma_get_put_other(b, "fields"@, Val::Dict(fields), "level"@);
    lemma_get_put_other(b, "fields"@, Val::Dict(fields), "message"@);
    if exists|i: int|
        0 <= i < fields.len() && !crate::records::good_field_name(#[trigger] fields[i].0) {
        let i = choose|i: int|
            0 <= i < fields.len() && !crate::records::good_field_name(#[trigger] fields[i].0);
        assert(!(1 <= size(fields[i].0) <= 256));
    }
}

/// A reading of the clock tells the seconds, the whole milliseconds and the fraction of a second.
pub proof fn law_clock_readings(seconds: u64, nanos: u32)
    requires
        nanos < 1_000_000_000,
        utc_record(seconds, nanos) is Ok,
    ensures
        ({
            let record = utc_record(seconds, nanos)->Ok_0;
            &&& record is Dict
            &&& get(record->Dict_0, "unix_seconds"@) == Some(Val::Number(seconds as i64))
            &&& get(record->Dict_0, "nanosecond_fraction"@) == Some(Val::Number(nanos as i64))
            &&& get(record->Dict_0, "unix_millis"@) is Some
            &&& get(record->Dict_0, "unix_millis"@)->0 is Number
            &&& 0 <= 1_000_000 * get(record->Dict_0, "unix_millis"@)->0->Number_0 <= seconds
                * 1_000_000_000 + nanos < 1_000_000 * (get(
                record->Dict_0,
                "unix_millis"@,
            )->0->Number_0 + 1)
        }),
{
    reveal_strlit("unix_seconds");
    reveal_strlit("unix_millis");
    reveal_strlit("nanosecond_fraction");
    assert("unix_seconds"@.len() == 12 && "unix_millis"@.len() == 11
        && "nanosecond_fraction"@.len() == 19);
    let none: Rows<Val> = Seq::empty();
    let millis = Val::Number((seconds * 1000 + nanos as int / 1_000_000) as i64);
    let a = put(none, "unix_seconds"@, Val::Number(seconds as i64));
    let b = put(a, "unix_millis"@, millis);
    let fraction = Val::Number(nanos as i64);
    lemma_put_ordered(none, "unix_seconds"@, Val::Number(seconds as i64));
    lemma_put_ordered(a, "unix_millis"@, millis);
    lemma_get_put_same(none, "unix_seconds"@, Val::Number(seconds as i64));
    lemma_get_put_same(a, "unix_millis"@, millis);
    lemma_get_put_same(b, "nanosecond_fraction"@, fraction);
    lemma_get_put_other(a, "unix_millis"@, millis, "unix_seconds"@);
    lemma_get_put_other(b, "nanosecond_fraction"@, fraction, "unix_seconds"@);
    lemma_get_put_other(b, "nanosecond_fraction"@, fraction, "unix_millis"@);
}

/// A document of a type that was asked for is read as without asking; any other is an error.
pub proof fn law_typed_documents(text: Str, expected: Str)
    requires
        read_json("from_json_typed"@, text) is Ok,
    ensures
        ({
            let read = read_json("from_json_typed"@, text)->Ok_0;
            let r = from_json_typed(seq![Val::Text(text), Val::Text(expected)]);
            &&& kind_name(read) == expected ==> r == Ok::<Val, Str>(read)
            &&& kind_name(read) != expected ==> r is Err
        }),
{
}

// ---------------------------------------------------------------------------
// Tasks
// ---------------------------------------------------------------------------

/// A finished future is joined with its value and is ready, it is not cancelled, and spawning it
/// makes a task that has that value. What is no future is refused by all of these.
pub proof fn law_futures(v: Val, other: Val, ticks: i64, w: World)
    requires
        !(other is Future),
        !(other is ScheduledFuture),
    ensures
        ({
            let f = Val::Future(Box::new(v));
            &&& task_joined(seq![f], w) == (Ok::<Val, Str>(v), w)
            &&& task_is_ready(seq![f], w) == (Ok::<Val, Str>(Val::Bool(true)), w)
            &&& task_cancelled(seq![f], w) == (Ok::<Val, Str>(Val::Bool(false)), w)
            &&& ticks >= 0 ==> task_joined_in_time(seq![f, Val::Number(ticks)], w) == (
                Ok::<Val, Str>(v),
                w,
            )
            &&& ticks < 0 ==> task_joined_in_time(seq![f, Val::Number(ticks)], w).0 is Err
            &&& w.budget.tasks < w.budget.max_tasks && w.tasks.len() < usize::MAX ==> {
                let (r, after) = spawned(seq![f], w);
                &&& r == Ok::<Val, Str>(Val::ScheduledFuture((w.tasks.len() + 1) as usize))
                &&& after.tasks.len() == w.tasks.len() + 1
                &&& task_is_ready(seq![r->Ok_0], after).0 == Ok::<Val, Str>(Val::Bool(false))
                &&& task_joined(seq![r->Ok_0], after).0 == Ok::<Val, Str>(v)
                &&& ticks > 0 ==> task_joined_in_time(seq![r->Ok_0, Val::Number(ticks)], after).0
                    == Ok::<Val, Str>(v)
                &&& task_joined_in_time(seq![r->Ok_0, Val::Number(0)], after).0 is Err
                &&& task_cancelled(seq![r->Ok_0], after).0 == Ok::<Val, Str>(Val::Bool(true))
                &&& task_joined(seq![r->Ok_0], task_cancelled(seq![r->Ok_0], after).1).0 is Err
                &&& task_is_ready(seq![r->Ok_0], task_joined(seq![r->Ok_0], after).1).0 == Ok::<
                    Val,
                    Str,
                >(Val::Bool(true))
            }
            &&& w.budget.tasks >= w.budget.max_tasks ==> spawned(seq![f], w).0 is Err
            &&& task_joined(seq![other], w).0 is Err
            &&& task_is_ready(seq![other], w).0 is Err
            &&& task_cancelled(seq![other], w).0 is Err
            &&& spawned(seq![other], w).0 is Err
        }),
{
}

/// Square roots are asked of the host for numbers that are not negative, and the host's number is
/// the answer.
pub proof fn law_square_roots(n: i64, w: World)
    ensures
        n < 0 ==> square_root(seq![Val::Number(n)], w).0 is Err && square_root(
            seq![Val::Number(n)],
            w,
        ).1 == w,
        n >= 0 ==> {
            let (reply, after) = ask(w, "sqrt"@, seq![Val::Number(n)]);
            &&& square_root(seq![Val::Number(n)], w).1 == after
            &&& reply is Ok && reply->Ok_0 is Number ==> square_root(seq![Val::Number(n)], w).0
                == reply
            &&& reply is Ok && !(reply->Ok_0 is Number) ==> square_root(
                seq![Val::Number(n)],
                w,
            ).0 is Err
            &&& reply is Err ==> square_root(seq![Val::Number(n)], w).0 is Err
        },
{
}

/// The JSON text of a value is that of its document, of at most 8 MiB; a value without a document
/// has none.
pub proof fn law_json_texts(v: Val, w: World)
    ensures
        json_value(seq![v], w) is Ok ==> {
            &&& to_json(v, w) is Ok
            &&& json_value(seq![v], w)->Ok_0 is Text
            &&& json_text(to_json(v, w)->Ok_0) == Ok::<Str, Str>(
                json_value(seq![v], w)->Ok_0->Text_0,
            )
            &&& size(json_value(seq![v], w)->Ok_0->Text_0) <= 8_388_608
        },
        to_json(v, w) is Ok && json_text(to_json(v, w)->Ok_0) is Ok && size(
            json_text(to_json(v, w)->Ok_0)->Ok_0,
        ) <= 8_388_608 ==> json_value(seq![v], w) is Ok,
{
}

/// A JSON text of at most 8 MiB is read as the value of its document, if the value is within the
/// limits.
pub proof fn law_json_texts_are_read(text: Str)
    ensures
        from_json_value(seq![Val::Text(text)]) is Ok <==> {
            &&& size(text) <= 8_388_608
            &&& parsed_json(text) is Ok
            &&& from_json(parsed_json(text)->Ok_0) is Ok
            &&& within_limits(from_json(parsed_json(text)->Ok_0)->Ok_0) is Ok
        },
        from_json_value(seq![Val::Text(text)]) is Ok ==> from_json_value(seq![Val::Text(text)])
            == from_json(parsed_json(text)->Ok_0),
{
}

/// The statistics tell the counters of the context: the bytes, tasks and output that are used, and
/// the limits on them.
pub proof fn law_statistics(w: World)
    requires
        w.budget.bytes <= i64::MAX,
        w.budget.tasks <= i64::MAX,
        w.budget.output <= i64::MAX,
        w.budget.max_bytes <= i64::MAX,
        w.budget.max_tasks <= i64::MAX,
        w.budget.max_output <= i64::MAX,
    ensures
        memory_stats(w) is Dict,
        ({
            let rows = memory_stats(w)->Dict_0;
            &&& get(rows, "used_bytes"@) == Some(Val::Number(w.budget.bytes as i64))
            &&& get(rows, "used_tasks"@) == Some(Val::Number(w.budget.tasks as i64))
            &&& get(rows, "used_output_bytes"@) == Some(Val::Number(w.budget.output as i64))
            &&& get(rows, "max_bytes"@) == Some(Val::Number(w.budget.max_bytes as i64))
            &&& get(rows, "max_tasks"@) == Some(Val::Number(w.budget.max_tasks as i64))
            &&& get(rows, "max_output_bytes"@) == Some(Val::Number(w.budget.max_output as i64))
        }),
{
    reveal_strlit("max_bytes");
    reveal_strlit("max_tasks");
    reveal_strlit("max_output_bytes");
    reveal_strlit("used_bytes");
    reveal_strlit("used_tasks");
    reveal_strlit("used_output_bytes");
    assert("max_bytes"@.len() == 9 && "max_bytes"@[4] == 'b');
    assert("max_tasks"@.len() == 9 && "max_tasks"@[4] == 't');
    assert("max_output_bytes"@.len() == 16);
    assert("used_bytes"@.len() == 10 && "used_bytes"@[5] == 'b');
    assert("used_tasks"@.len() == 10 && "used_tasks"@[5] == 't');
    assert("used_output_bytes"@.len() == 17);
    lemma_store_stats(w);
    let t0 = store_stats(w);
    let v1 = counted(w.budget.max_bytes as int);
    let t1 = put(t0, "max_bytes"@, v1);
    lemma_put_ordered(t0, "max_bytes"@, v1);
    lemma_get_put_same(t0, "max_bytes"@, v1);
    let v2 = counted(w.budget.max_tasks as int);
    let t2 = put(t1, "max_tasks"@, v2);
    lemma_put_ordered(t1, "max_tasks"@, v2);
    lemma_get_put_same(t1, "max_tasks"@, v2);
    lemma_get_put_other(t1, "max_tasks"@, v2, "max_bytes"@);
    let v3 = counted(w.budget.max_output as int);
    let t3 = put(t2, "max_output_bytes"@, v3);
    lemma_put_ordered(t2, "max_output_bytes"@, v3);
    lemma_get_put_same(t2, "max_output_bytes"@, v3);
    lemma_get_put_other(t2, "max_output_bytes"@, v3, "max_bytes"@);
    lemma_get_put_other(t2, "max_output_bytes"@, v3, "max_tasks"@);
    let v4 = counted(w.budget.bytes as int);
    let t4 = put(t3, "used_bytes"@, v4);
    lemma_put_ordered(t3, "used_bytes"@, v4);
    lemma_get_put_same(t3, "used_bytes"@, v4);
    lemma_get_put_other(t3, "used_bytes"@, v4, "max_bytes"@);
    lemma_get_put_other(t3, "used_bytes"@, v4, "max_tasks"@);
    lemma_get_put_other(t3, "used_bytes"@, v4, "max_output_bytes"@);
    let v5 = counted(w.budget.tasks as int);
    let t5 = put(t4, "used_tasks"@, v5);
    lemma_put_ordered(t4, "used_tasks"@, v5);
    lemma_get_put_same(t4, "used_tasks"@, v5);
    lemma_get_put_other(t4, "used_tasks"@, v5, "max_bytes"@);
    lemma_get_put_other(t4, "used_tasks"@, v5, "max_tasks"@);
    lemma_get_put_other(t4, "used_tasks"@, v5, "max_output_bytes"@);
    lemma_get_put_other(t4, "used_tasks"@, v5, "used_bytes"@);
    let v6 = counted(w.budget.output as int);
    let t6 = put(t5, "used_output_bytes"@, v6);
    lemma_put_ordered(t5, "used_output_bytes"@, v6);
    lemma_get_put_same(t5, "used_output_bytes"@, v6);
    lemma_get_put_other(t5, "used_output_bytes"@, v6, "max_bytes"@);
    lemma_get_put_other(t5, "used_output_bytes"@, v6, "max_tasks"@);
    lemma_get_put_other(t5, "used_output_bytes"@, v6, "max_output_bytes"@);
    lemma_get_put_other(t5, "used_output_bytes"@, v6, "used_bytes"@);
    lemma_get_put_other(t5, "used_output_bytes"@, v6, "used_tasks"@);
}

proof fn lemma_store_stats(w: World)
    ensures
        ordered(store_stats(w)),
{
    let none: Rows<Val> = Seq::empty();
    let v1 = counted(crate::liveness::live_objects(w) as int);
    let t1 = put(none, "live_objects"@, v1);
    lemma_put_ordered(none, "live_objects"@, v1);
    let v2 = counted(w.cells.len() as int);
    let t2 = put(t1, "object_allocations"@, v2);
    lemma_put_ordered(t1, "object_allocations"@, v2);
    let v3 = counted(w.stats.cleanup_attempts as int);
    let t3 = put(t2, "cleanup_attempts"@, v3);
    lemma_put_ordered(t2, "cleanup_attempts"@, v3);
    let v4 = counted(w.stats.cleanup_successes as int);
    let t4 = put(t3, "cleanup_successes"@, v4);
    lemma_put_ordered(t3, "cleanup_successes"@, v4);
    let v5 = counted(w.stats.cleanup_failures as int);
    let t5 = put(t4, "cleanup_failures"@, v5);
    lemma_put_ordered(t4, "cleanup_failures"@, v5);
    let v6 = counted(w.stats.validation_runs as int);
    let t6 = put(t5, "validation_runs"@, v6);
    lemma_put_ordered(t5, "validation_runs"@, v6);
    let v7 = counted(crate::value::MAX_RUNTIME_TEXT_BYTES as int);
    let t7 = put(t6, "max_text_bytes"@, v7);
    lemma_put_ordered(t6, "max_text_bytes"@, v7);
    let v8 = counted(crate::value::MAX_RUNTIME_COLLECTION_ITEMS as int);
    let t8 = put(t7, "max_collection_items"@, v8);
    lemma_put_ordered(t7, "max_collection_items"@, v8);
    let v9 = Val::Text("unsupported_public_api"@);
    let t9 = put(t8, "weak_references"@, v9);
    lemma_put_ordered(t8, "weak_references"@, v9);
    let v10 = Val::Text("explicit_clear_object_fields"@);
    lemma_put_ordered(t9, "cycle_policy"@, v10);
}

/// Without a context a function computes what it computes in a fresh one, on arguments that are
/// within the limits.
pub proof fn law_functions_without_a_context(name: Str, args: Seq<Val>, reply: Result<Val, Str>)
    requires
        name != "memory_stats"@,
        detached(name, args, reply) is None,
        pure_builtin(name, args, fresh()) is Some,
    ensures
        arguments_limited(args, 0) is Err ==> detached_builtin(name, args, reply) is Err,
        arguments_limited(args, 0) is Ok && pure_builtin(name, args, fresh())->0 is Ok
            ==> detached_builtin(name, args, reply) == Ok::<Option<Val>, Str>(
            Some(pure_builtin(name, args, fresh())->0->Ok_0),
        ),
        arguments_limited(args, 0) is Ok && pure_builtin(name, args, fresh())->0 is Err
            ==> detached_builtin(name, args, reply) is Err,
{
}

/// Spawning a task that has been scheduled gives the same task.
pub proof fn law_scheduled_tasks_are_not_spawned_again(id: usize, w: World)
    ensures
        spawned(seq![Val::ScheduledFuture(id)], w) == (
            Ok::<Val, Str>(Val::ScheduledFuture(id)),
            w,
        ),
{
}

/// The text of a map shows its entries with their keys, in its order.
pub proof fn law_maps_as_texts(rows: Rows<Val>)
    ensures
        rows.len() == 0 ==> show(Val::Dict(rows)) == "{"@ + "}"@,
        rows.len() == 1 ==> show(Val::Dict(rows)) == "{"@ + (rows[0].0 + ": "@ + show(rows[0].1))
            + "}"@,
        rows.len() == 2 ==> show(Val::Dict(rows)) == "{"@ + ((rows[0].0 + ": "@ + show(rows[0].1))
            + ", "@ + (rows[1].0 + ": "@ + show(rows[1].1))) + "}"@,
{
    reveal_with_fuel(show, 3);
    reveal_with_fuel(join, 3);
    if rows.len() == 0 {
        assert(show(Val::Dict(rows)) =~= "{"@ + "}"@);
    }
    if rows.len() == 2 {
        assert(show_rows(rows).drop_last() =~= seq![rows[0].0 + ": "@ + show(rows[0].1)]);
    }
}

/// A log record as text is the document of its parts, of at most 65536 bytes.
pub proof fn law_log_texts(record: Val, w: World)
    ensures
        log_text(record, w) is Ok ==> {
            &&& log_document(record, w) is Ok
            &&& json_text(log_document(record, w)->Ok_0) == log_text(record, w)
            &&& size(log_text(record, w)->Ok_0) <= 65_536
        },
{
}

proof fn lemma_log_fields(fields: Rows<Val>, i: nat, done: Rows<JsonM>, w: World, k: int)
    requires
        ordered(fields),
        ordered(done),
        i <= fields.len(),
        log_fields(fields, i, done, w) is Ok,
    ensures
        i <= k < fields.len() ==> get(log_fields(fields, i, done, w)->Ok_0, fields[k].0) == Some(
            to_json(fields[k].1, w)->Ok_0,
        ),
        0 <= k < fields.len() && k < i ==> get(
            log_fields(fields, i, done, w)->Ok_0,
            fields[k].0,
        ) == get(done, fields[k].0),
    decreases fields.len() - i,
{
    if i < fields.len() {
        let key = fields[i as int].0;
        let document = to_json(fields[i as int].1, w)->Ok_0;
        let more = put(done, key, document);
        lemma_put_ordered(done, key, document);
        lemma_get_put_same(done, key, document);
        lemma_log_fields(fields, i + 1, more, w, k);
        if 0 <= k < i {
            crate::text::lemma_less_total(fields[k].0, key);
            lemma_get_put_other(done, key, document, fields[k].0);
        }
    }
}

/// The document of a log record holds the document of each of its fields under the name of the
/// field, and the level and the message beside them.
pub proof fn law_log_documents(level: Str, message: Str, fields: Rows<Val>, w: World, k: int)
    requires
        ordered(fields),
        log_record(level, message, fields) is Ok,
        log_document(log_record(level, message, fields)->Ok_0, w) is Ok,
        0 <= k < fields.len(),
    ensures
        ({
            let document = log_document(log_record(level, message, fields)->Ok_0, w)->Ok_0;
            &&& document is Object
            &&& get(document->Object_0, "level"@) == Some(to_json(Val::Text(level), w)->Ok_0)
            &&& get(document->Object_0, "message"@) == Some(to_json(Val::Text(message), w)->Ok_0)
            &&& get(document->Object_0, "fields"@) matches Some(JsonM::Object(inner)) && get(
                inner,
                fields[k].0,
            ) == Some(to_json(fields[k].1, w)->Ok_0)
        }),
{
    law_log_records(level, message, fields);
    let inner = log_fields(fields, 0, Seq::empty(), w)->Ok_0;
    lemma_log_fields(fields, 0, Seq::empty(), w, k);
    let level_document = to_json(Val::Text(level), w)->Ok_0;
    let message_document = to_json(Val::Text(message), w)->Ok_0;
    reveal_strlit("fields");
    reveal_strlit("level");
    reveal_strlit("message");
    assert("fields"@.len() == 6);
    assert("level"@.len() == 5);
    assert("message"@.len() == 7);
    let none: Rows<JsonM> = Seq::empty();
    let t1 = put(none, "fields"@, JsonM::Object(inner));
    lemma_put_ordered(none, "fields"@, JsonM::Object(inner));
    lemma_get_put_same(none, "fields"@, JsonM::Object(inner));
    let t2 = put(t1, "level"@, level_document);
    lemma_put_ordered(t1, "level"@, level_document);
    lemma_get_put_same(t1, "level"@, level_document);
    lemma_get_put_other(t1, "level"@, level_document, "fields"@);
    let t3 = put(t2, "message"@, message_document);
    lemma_put_ordered(t2, "message"@, message_document);
    lemma_get_put_same(t2, "message"@, message_document);
    lemma_get_put_other(t2, "message"@, message_document, "fields"@);
    lemma_get_put_other(t2, "message"@, message_document, "level"@);
}

} // verus!
