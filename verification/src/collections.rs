//! Builtin functions on lists, maps and numbers.

use crate::ast::views;
use crate::builtins::{arity_failure, list, told_some, values_of_texts, text_values, with_arity,
    MAX_LOOP_ITERATIONS};
use crate::numbers::{bounded_range_values, checked_integer_pow, in_range, overflow_error, power,
    range_values, sort_numbers, sort_texts, sorted_numbers, sorted_texts};
use crate::records::{dict, text_value, with};
use crate::table::{get, put, Table};
use crate::text::{chars_of, contains, decimal, includes, join2, length_text, same, texts, Str};
use crate::value::{copy_table, copy_values, equal, fail, kind_name, lemma_value_view, told,
    value_type_name, within_limits, Val, ZapValue};
use crate::world::{keys_of, table_keys};
use vstd::prelude::*;

verus! {

pub open spec fn length(args: Seq<Val>) -> Result<Val, Str> {
    match args[0] {
        Val::Text(s) => Ok(Val::Number(s.len() as i64)),
        Val::List(items) => Ok(Val::Number(items.len() as i64)),
        Val::Dict(rows) => Ok(Val::Number(rows.len() as i64)),
        _ => Err("len expects text, list, or map"@),
    }
}

fn do_len(args: &Vec<ZapValue>) -> (r: Result<ZapValue, String>)
    requires
        args@.len() == 1,
    ensures
        told(r) == length(views(args@)),
{
    broadcast use lemma_value_view;

    match &args[0] {
        ZapValue::Text(s) => Ok(ZapValue::Number(chars_of(s.as_str()).len() as i64)),
        ZapValue::List(items) => Ok(ZapValue::Number(items.len() as i64)),
        ZapValue::Dict(table) => Ok(ZapValue::Number(table.len() as i64)),
        _ => fail("len expects text, list, or map"),
    }
}

/// A value, unless it breaks a runtime limit.
pub open spec fn limited(v: Val) -> Result<Val, Str> {
    match within_limits(v) {
        Ok(_) => Ok(v),
        Err(error) => Err(error),
    }
}

pub fn limit_value(value: ZapValue) -> (r: Result<ZapValue, String>)
    ensures
        told(r) == limited(value@),
{
    match value.validate_memory_limits() {
        Ok(_) => Ok(value),
        Err(error) => Err(error),
    }
}

pub open spec fn append(args: Seq<Val>) -> Result<Val, Str> {
    match args[0] {
        Val::List(items) => if items.len() >= MAX_LOOP_ITERATIONS {
            Err("append output exceeds iteration limit"@)
        } else {
            limited(Val::List(items.push(args[1])))
        },
        _ => Err("append expects a list and a value"@),
    }
}

fn do_append(args: &Vec<ZapValue>) -> (r: Result<ZapValue, String>)
    requires
        args@.len() == 2,
    ensures
        told(r) == append(views(args@)),
{
    broadcast use lemma_value_view;

    match &args[0] {
        ZapValue::List(items) => {
            if items.len() >= MAX_LOOP_ITERATIONS {
                return fail("append output exceeds iteration limit");
            }
            let mut out = copy_values(items);
            let ghost earlier = out@;
            out.push(args[1].copy());
            assert(views(out@) =~= views(earlier).push(args@[1]@));
            limit_value(list(out))
        },
        _ => fail("append expects a list and a value"),
    }
}

pub open spec fn get_value(args: Seq<Val>) -> Result<Val, Str> {
    match (args[0], args[1]) {
        (Val::Dict(rows), Val::Text(key)) => Ok(
            match get(rows, key) {
                Some(value) => value,
                None => args[2],
            },
        ),
        _ => Err("get expects a map, text key, and default value"@),
    }
}

fn do_get(args: &Vec<ZapValue>) -> (r: Result<ZapValue, String>)
    requires
        args@.len() == 3,
    ensures
        told(r) == get_value(views(args@)),
{
    broadcast use lemma_value_view;

    match (&args[0], &args[1]) {
        (ZapValue::Dict(table), ZapValue::Text(key)) => match table.find(key.as_str()) {
            Some(value) => Ok(value.copy()),
            None => Ok(args[2].copy()),
        },
        _ => fail("get expects a map, text key, and default value"),
    }
}

pub open spec fn map_set(args: Seq<Val>) -> Result<Val, Str> {
    match (args[0], args[1]) {
        (Val::Dict(rows), Val::Text(key)) => limited(Val::Dict(put(rows, key, args[2]))),
        _ => Err("map_set expects a map, text key, and value"@),
    }
}

fn do_map_set(args: &Vec<ZapValue>) -> (r: Result<ZapValue, String>)
    requires
        args@.len() == 3,
    ensures
        told(r) == map_set(views(args@)),
{
    broadcast use lemma_value_view;

    match (&args[0], &args[1]) {
        (ZapValue::Dict(table), ZapValue::Text(key)) => {
            let mut updated = copy_table(table);
            updated.insert(key.clone(), args[2].copy());
            limit_value(dict(updated))
        },
        _ => fail("map_set expects a map, text key, and value"),
    }
}

pub open spec fn keys_value(args: Seq<Val>) -> Result<Val, Str> {
    match args[0] {
        Val::Dict(rows) => Ok(Val::List(text_values(keys_of(rows)))),
        _ => Err("keys expects a map"@),
    }
}

fn do_keys(args: &Vec<ZapValue>) -> (r: Result<ZapValue, String>)
    requires
        args@.len() == 1,
    ensures
        told(r) == keys_value(views(args@)),
{
    broadcast use lemma_value_view;

    match &args[0] {
        ZapValue::Dict(table) => Ok(list(values_of_texts(&table_keys(table)))),
        _ => fail("keys expects a map"),
    }
}

/// A map of two entries.
pub open spec fn pair(first: Str, a: Val, second: Str, b: Val) -> Val {
    Val::Dict(put(put(Seq::empty(), first, a), second, b))
}

fn pair_value(first: &str, a: ZapValue, second: &str, b: ZapValue) -> (r: ZapValue)
    ensures
        r@ == pair(first@, a@, second@, b@),
{
    dict(with(with(Table::new(), first, a), second, b))
}

pub open spec fn entries(args: Seq<Val>) -> Result<Val, Str> {
    match args[0] {
        Val::Dict(rows) => if rows.len() > MAX_LOOP_ITERATIONS {
            Err("entries output exceeds iteration limit"@)
        } else {
            Ok(
                Val::List(
                    Seq::new(
                        rows.len(),
                        |i: int| pair("key"@, Val::Text(rows[i].0), "value"@, rows[i].1),
                    ),
                ),
            )
        },
        _ => Err("entries expects a map"@),
    }
}

fn do_entries(args: &Vec<ZapValue>) -> (r: Result<ZapValue, String>)
    requires
        args@.len() == 1,
    ensures
        told(r) == entries(views(args@)),
{
    broadcast use lemma_value_view;

    match &args[0] {
        ZapValue::Dict(table) => {
            if table.len() > MAX_LOOP_ITERATIONS {
                return fail("entries output exceeds iteration limit");
            }
            let mut out: Vec<ZapValue> = Vec::new();
            let mut i: usize = 0;
            while i < table.entries.len()
                invariant
                    i <= table.entries@.len(),
                    out@.len() == i,
                    forall|j: int|
                        0 <= j < i ==> (#[trigger] out@[j])@ == pair(
                            "key"@,
                            Val::Text(table@[j].0),
                            "value"@,
                            table@[j].1,
                        ),
                decreases table.entries.len() - i,
            {
                out.push(
                    pair_value(
                        "key",
                        ZapValue::Text(table.entries[i].0.clone()),
                        "value",
                        table.entries[i].1.copy(),
                    ),
                );
                i += 1;
            }
            assert(views(out@) =~= Seq::new(
                table@.len(),
                |i: int| pair("key"@, Val::Text(table@[i].0), "value"@, table@[i].1),
            ));
            Ok(list(out))
        },
        _ => fail("entries expects a map"),
    }
}

pub open spec fn enumerated(args: Seq<Val>) -> Result<Val, Str> {
    match args[0] {
        Val::List(items) => if items.len() > MAX_LOOP_ITERATIONS {
            Err("enumerate output exceeds iteration limit"@)
        } else {
            Ok(
                Val::List(
                    Seq::new(
                        items.len(),
                        |i: int| pair("index"@, Val::Number(i as i64), "value"@, items[i]),
                    ),
                ),
            )
        },
        _ => Err("enumerate expects a list"@),
    }
}

fn do_enumerate(args: &Vec<ZapValue>) -> (r: Result<ZapValue, String>)
    requires
        args@.len() == 1,
    ensures
        told(r) == enumerated(views(args@)),
{
    broadcast use lemma_value_view;

    match &args[0] {
        ZapValue::List(items) => {
            if items.len() > MAX_LOOP_ITERATIONS {
                return fail("enumerate output exceeds iteration limit");
            }
            let mut out: Vec<ZapValue> = Vec::new();
            let mut i: usize = 0;
            while i < items.len()
                invariant
                    i <= items@.len(),
                    out@.len() == i,
                    forall|j: int|
                        0 <= j < i ==> (#[trigger] out@[j])@ == pair(
                            "index"@,
                            Val::Number(j as i64),
                            "value"@,
                            items@[j]@,
                        ),
                decreases items.len() - i,
            {
                out.push(
                    pair_value("index", ZapValue::Number(i as i64), "value", items[i].copy()),
                );
                i += 1;
            }
            assert(views(out@) =~= Seq::new(
                items@.len(),
                |i: int| pair("index"@, Val::Number(i as i64), "value"@, views(items@)[i]),
            ));
            Ok(list(out))
        },
        _ => fail("enumerate expects a list"),
    }
}

/// The number of items, among the first `n`, that are equal to a value.
pub open spec fn occurrences(items: Seq<Val>, item: Val, n: nat) -> nat
    decreases n,
{
    if n == 0 || n > items.len() {
        0
    } else {
        occurrences(items, item, (n - 1) as nat) + (if equal(items[n - 1], item) {
            1nat
        } else {
            0nat
        })
    }
}

fn count_occurrences(items: &Vec<ZapValue>, item: &ZapValue) -> (r: usize)
    ensures
        r == occurrences(views(items@), item@, items@.len()),
        r <= items@.len(),
{
    let mut count: usize = 0;
    let mut i: usize = 0;
    while i < items.len()
        invariant
            i <= items@.len(),
            count == occurrences(views(items@), item@, i as nat),
            count <= i,
        decreases items.len() - i,
    {
        if items[i].equals(item) {
            count += 1;
        }
        i += 1;
    }
    count
}

pub open spec fn contains_value(args: Seq<Val>) -> Result<Val, Str> {
    match args[0] {
        Val::Text(s) => match args[1] {
            Val::Text(part) => Ok(Val::Bool(includes(s, part))),
            _ => Err("contains expects text/text, list/value, or map/key"@),
        },
        Val::List(items) => Ok(Val::Bool(occurrences(items, args[1], items.len()) > 0)),
        Val::Dict(rows) => match args[1] {
            Val::Text(key) => Ok(Val::Bool(get(rows, key) is Some)),
            _ => Err("contains expects text/text, list/value, or map/key"@),
        },
        _ => Err("contains expects text/text, list/value, or map/key"@),
    }
}

fn do_contains(args: &Vec<ZapValue>) -> (r: Result<ZapValue, String>)
    requires
        args@.len() == 2,
    ensures
        told(r) == contains_value(views(args@)),
{
    broadcast use lemma_value_view;

    match (&args[0], &args[1]) {
        (ZapValue::Text(s), ZapValue::Text(part)) => Ok(
            ZapValue::Bool(contains(s.as_str(), part.as_str())),
        ),
        (ZapValue::List(items), item) => Ok(ZapValue::Bool(count_occurrences(items, item) > 0)),
        (ZapValue::Dict(table), ZapValue::Text(key)) => Ok(
            ZapValue::Bool(table.holds(key.as_str())),
        ),
        _ => fail("contains expects text/text, list/value, or map/key"),
    }
}

pub open spec fn is_empty_value(args: Seq<Val>) -> Result<Val, Str> {
    match args[0] {
        Val::Text(s) => Ok(Val::Bool(s.len() == 0)),
        Val::List(items) => Ok(Val::Bool(items.len() == 0)),
        Val::Dict(rows) => Ok(Val::Bool(rows.len() == 0)),
        _ => Err("is_empty expects text, list, or map"@),
    }
}

fn do_is_empty(args: &Vec<ZapValue>) -> (r: Result<ZapValue, String>)
    requires
        args@.len() == 1,
    ensures
        told(r) == is_empty_value(views(args@)),
{
    broadcast use lemma_value_view;

    match &args[0] {
        ZapValue::Text(s) => Ok(ZapValue::Bool(chars_of(s.as_str()).len() == 0)),
        ZapValue::List(items) => Ok(ZapValue::Bool(items.len() == 0)),
        ZapValue::Dict(table) => Ok(ZapValue::Bool(table.len() == 0)),
        _ => fail("is_empty expects text, list, or map"),
    }
}

pub open spec fn count_value_of(args: Seq<Val>) -> Result<Val, Str> {
    match args[0] {
        Val::List(items) => Ok(
            Val::Number(occurrences(items, args[1], items.len()) as i64),
        ),
        _ => Err("count expects a list and a value"@),
    }
}

fn do_count(args: &Vec<ZapValue>) -> (r: Result<ZapValue, String>)
    requires
        args@.len() == 2,
    ensures
        told(r) == count_value_of(views(args@)),
{
    broadcast use lemma_value_view;

    match &args[0] {
        ZapValue::List(items) => Ok(
            ZapValue::Number(count_occurrences(items, &args[1]) as i64),
        ),
        _ => fail("count expects a list and a value"),
    }
}

/// Adds the items from position `i` on to a total.
pub open spec fn sum_from(items: Seq<Val>, i: nat, total: i64) -> Result<Val, Str>
    decreases items.len() - i,
{
    if i >= items.len() {
        Ok(Val::Number(total))
    } else {
        match items[i as int] {
            Val::Number(n) => if i64::MIN <= total + n <= i64::MAX {
                sum_from(items, i + 1, (total + n) as i64)
            } else {
                Err(overflow_error())
            },
            _ => Err("sum expects a list of numbers"@),
        }
    }
}

pub open spec fn sum_value(args: Seq<Val>) -> Result<Val, Str> {
    match args[0] {
        Val::List(items) => sum_from(items, 0, 0),
        _ => Err("sum expects a list"@),
    }
}

fn do_sum(args: &Vec<ZapValue>) -> (r: Result<ZapValue, String>)
    requires
        args@.len() == 1,
    ensures
        told(r) == sum_value(views(args@)),
{
    broadcast use lemma_value_view;

    match &args[0] {
        ZapValue::List(items) => {
            let mut total: i64 = 0;
            let mut i: usize = 0;
            while i < items.len()
                invariant
                    i <= items@.len(),
                    sum_from(views(items@), 0, 0) == sum_from(views(items@), i as nat, total),
                    sum_value(views(args@)) == sum_from(views(items@), 0, 0),
                decreases items.len() - i,
            {
                match &items[i] {
                    ZapValue::Number(n) => match total.checked_add(*n) {
                        Some(next) => {
                            total = next;
                        },
                        None => {
                            return fail("integer overflow");
                        },
                    },
                    _ => {
                        return fail("sum expects a list of numbers");
                    },
                }
                i += 1;
            }
            Ok(ZapValue::Number(total))
        },
        _ => fail("sum expects a list"),
    }
}

pub open spec fn reverse_value(args: Seq<Val>) -> Result<Val, Str> {
    match args[0] {
        Val::List(items) => Ok(Val::List(items.reverse())),
        _ => Err("reverse expects a list"@),
    }
}

fn do_reverse(args: &Vec<ZapValue>) -> (r: Result<ZapValue, String>)
    requires
        args@.len() == 1,
    ensures
        told(r) == reverse_value(views(args@)),
{
    broadcast use lemma_value_view;

    match &args[0] {
        ZapValue::List(items) => {
            let mut out: Vec<ZapValue> = Vec::new();
            let mut i: usize = items.len();
            while i > 0
                invariant
                    i <= items@.len(),
                    out@.len() == items@.len() - i,
                    forall|j: int|
                        0 <= j < out@.len() ==> (#[trigger] out@[j])@ == items@[items@.len() - 1
                            - j]@,
                decreases i,
            {
                i -= 1;
                out.push(items[i].copy());
            }
            assert(views(out@) =~= views(items@).reverse());
            Ok(list(out))
        },
        _ => fail("reverse expects a list"),
    }
}

pub open spec fn all_numbers(items: Seq<Val>) -> bool {
    forall|i: int| 0 <= i < items.len() ==> (#[trigger] items[i]) is Number
}

pub open spec fn all_texts(items: Seq<Val>) -> bool {
    forall|i: int| 0 <= i < items.len() ==> (#[trigger] items[i]) is Text
}

pub open spec fn numbers_in(items: Seq<Val>) -> Seq<i64> {
    Seq::new(items.len(), |i: int| items[i]->Number_0)
}

pub open spec fn texts_in(items: Seq<Val>) -> Seq<Str> {
    Seq::new(items.len(), |i: int| items[i]->Text_0)
}

pub open spec fn number_values(s: Seq<i64>) -> Seq<Val> {
    Seq::new(s.len(), |i: int| Val::Number(s[i]))
}

pub open spec fn sort_value(args: Seq<Val>) -> Result<Val, Str> {
    match args[0] {
        Val::List(items) => if all_numbers(items) {
            Ok(Val::List(number_values(sorted_numbers(numbers_in(items), items.len()))))
        } else if all_texts(items) {
            Ok(Val::List(text_values(sorted_texts(texts_in(items), items.len()))))
        } else {
            Err("sort expects a list of numbers or text"@)
        },
        _ => Err("sort expects a list"@),
    }
}

fn take_numbers(items: &Vec<ZapValue>) -> (r: Option<Vec<i64>>)
    ensures
        match r {
            Some(v) => all_numbers(views(items@)) && v@ == numbers_in(views(items@)),
            None => !all_numbers(views(items@)),
        },
{
    let mut out: Vec<i64> = Vec::new();
    let mut i: usize = 0;
    while i < items.len()
        invariant
            i <= items@.len(),
            out@.len() == i,
            forall|j: int| 0 <= j < i ==> (#[trigger] items@[j])@ == Val::Number(out@[j]),
        decreases items.len() - i,
    {
        match &items[i] {
            ZapValue::Number(n) => out.push(*n),
            _ => {
                assert(!(views(items@)[i as int] is Number));
                return None;
            },
        }
        i += 1;
    }
    proof {
        assert forall|j: int| 0 <= j < items@.len() implies (#[trigger] views(
            items@,
        )[j]) is Number by {
            assert(items@[j]@ == Val::Number(out@[j]));
        }
        assert(out@ =~= numbers_in(views(items@))) by {
            assert forall|j: int| 0 <= j < items@.len() implies out@[j] == numbers_in(
                views(items@),
            )[j] by {
                assert(items@[j]@ == Val::Number(out@[j]));
            }
        }
    }
    Some(out)
}

fn take_texts(items: &Vec<ZapValue>) -> (r: Option<Vec<String>>)
    ensures
        match r {
            Some(v) => all_texts(views(items@)) && texts(v@) == texts_in(views(items@)),
            None => !all_texts(views(items@)),
        },
{
    let mut out: Vec<String> = Vec::new();
    let mut i: usize = 0;
    while i < items.len()
        invariant
            i <= items@.len(),
            out@.len() == i,
            forall|j: int| 0 <= j < i ==> (#[trigger] items@[j])@ == Val::Text(out@[j]@),
        decreases items.len() - i,
    {
        match &items[i] {
            ZapValue::Text(s) => out.push(s.clone()),
            _ => {
                assert(!(views(items@)[i as int] is Text));
                return None;
            },
        }
        i += 1;
    }
    proof {
        assert forall|j: int| 0 <= j < items@.len() implies (#[trigger] views(
            items@,
        )[j]) is Text by {
            assert(items@[j]@ == Val::Text(out@[j]@));
        }
        assert(texts(out@) =~= texts_in(views(items@))) by {
            assert forall|j: int| 0 <= j < items@.len() implies texts(out@)[j] == texts_in(
                views(items@),
            )[j] by {
                assert(items@[j]@ == Val::Text(out@[j]@));
            }
        }
    }
    Some(out)
}

fn values_of_numbers(numbers: &Vec<i64>) -> (r: Vec<ZapValue>)
    ensures
        views(r@) == number_values(numbers@),
{
    let mut out: Vec<ZapValue> = Vec::new();
    let mut i: usize = 0;
    while i < numbers.len()
        invariant
            i <= numbers@.len(),
            out@.len() == i,
            forall|j: int| 0 <= j < i ==> (#[trigger] out@[j])@ == Val::Number(numbers@[j]),
        decreases numbers.len() - i,
    {
        out.push(ZapValue::Number(numbers[i]));
        i += 1;
    }
    assert(views(out@) =~= number_values(numbers@));
    out
}

fn do_sort(args: &Vec<ZapValue>) -> (r: Result<ZapValue, String>)
    requires
        args@.len() == 1,
    ensures
        told(r) == sort_value(views(args@)),
{
    broadcast use lemma_value_view;

    match &args[0] {
        ZapValue::List(items) => {
            if let Some(numbers) = take_numbers(items) {
                return Ok(list(values_of_numbers(&sort_numbers(&numbers))));
            }
            if let Some(parts) = take_texts(items) {
                assert(texts(parts@).len() == items@.len());
                return Ok(list(values_of_texts(&sort_texts(&parts))));
            }
            fail("sort expects a list of numbers or text")
        },
        _ => fail("sort expects a list"),
    }
}

pub open spec fn range_value(args: Seq<Val>) -> Result<Val, Str> {
    if args.len() != 1 && args.len() != 2 {
        Err("range expects one or two arguments, got "@ + decimal(args.len() as int))
    } else {
        match (args[0], args[args.len() - 1]) {
            (Val::Number(first), Val::Number(last)) => match range_values(
                if args.len() == 1 {
                    0
                } else {
                    first
                },
                last,
            ) {
                Ok(values) => Ok(Val::List(values)),
                Err(error) => Err(error),
            },
            _ => Err("range expects numeric arguments"@),
        }
    }
}

fn do_range(args: &Vec<ZapValue>) -> (r: Result<ZapValue, String>)
    ensures
        told(r) == range_value(views(args@)),
{
    if args.len() != 1 && args.len() != 2 {
        return Err(
            join2(
                "range expects one or two arguments, got ",
                length_text(args.len()).as_str(),
            ),
        );
    }
    match (&args[0], &args[args.len() - 1]) {
        (ZapValue::Number(first), ZapValue::Number(last)) => {
            let start: i64 = if args.len() == 1 {
                0
            } else {
                *first
            };
            match bounded_range_values(start, *last) {
                Ok(values) => Ok(list(values)),
                Err(error) => Err(error),
            }
        },
        _ => fail("range expects numeric arguments"),
    }
}

pub open spec fn abs_value(args: Seq<Val>) -> Result<Val, Str> {
    match args[0] {
        Val::Number(n) => in_range(
            if n < 0 {
                -(n as int)
            } else {
                n as int
            },
        ),
        _ => Err("abs expects a number"@),
    }
}

fn do_abs(args: &Vec<ZapValue>) -> (r: Result<ZapValue, String>)
    requires
        args@.len() == 1,
    ensures
        told(r) == abs_value(views(args@)),
{
    match &args[0] {
        ZapValue::Number(n) => if *n == i64::MIN {
            fail("integer overflow")
        } else if *n < 0 {
            Ok(ZapValue::Number(-*n))
        } else {
            Ok(ZapValue::Number(*n))
        },
        _ => fail("abs expects a number"),
    }
}

/// `min` and `max`.
pub open spec fn extreme(name: Str, args: Seq<Val>) -> Result<Val, Str> {
    match (args[0], args[1]) {
        (Val::Number(x), Val::Number(y)) => Ok(
            Val::Number(
                if (name == "min"@) == (x < y) {
                    x
                } else {
                    y
                },
            ),
        ),
        _ => Err(name + " expects two numbers"@),
    }
}

fn do_extreme(name: &str, args: &Vec<ZapValue>) -> (r: Result<ZapValue, String>)
    requires
        args@.len() == 2,
    ensures
        told(r) == extreme(name@, views(args@)),
{
    match (&args[0], &args[1]) {
        (ZapValue::Number(x), ZapValue::Number(y)) => Ok(
            ZapValue::Number(
                if same(name, "min") == (*x < *y) {
                    *x
                } else {
                    *y
                },
            ),
        ),
        _ => Err(join2(name, " expects two numbers")),
    }
}

pub open spec fn pow_value(args: Seq<Val>) -> Result<Val, Str> {
    match (args[0], args[1]) {
        (Val::Number(base), Val::Number(exponent)) => if exponent < 0 {
            Err("pow expects a non-negative exponent"@)
        } else {
            power(base, exponent)
        },
        _ => Err("pow expects two numbers"@),
    }
}

fn do_pow(args: &Vec<ZapValue>) -> (r: Result<ZapValue, String>)
    requires
        args@.len() == 2,
    ensures
        told(r) == pow_value(views(args@)),
{
    match (&args[0], &args[1]) {
        (ZapValue::Number(base), ZapValue::Number(exponent)) => if *exponent < 0 {
            fail("pow expects a non-negative exponent")
        } else {
            checked_integer_pow(*base, *exponent)
        },
        _ => fail("pow expects two numbers"),
    }
}

/// The builtins on collections.
pub open spec fn collection_builtin(name: Str, args: Seq<Val>) -> Option<Result<Val, Str>> {
    if name == "len"@ {
        Some(with_arity(name, 1, args, length(args)))
    } else if name == "append"@ {
        Some(with_arity(name, 2, args, append(args)))
    } else if name == "type"@ {
        Some(with_arity(name, 1, args, Ok(Val::Text(kind_name(args[0])))))
    } else if name == "get"@ {
        Some(with_arity(name, 3, args, get_value(args)))
    } else if name == "map_set"@ {
        Some(with_arity(name, 3, args, map_set(args)))
    } else if name == "keys"@ {
        Some(with_arity(name, 1, args, keys_value(args)))
    } else if name == "entries"@ {
        Some(with_arity(name, 1, args, entries(args)))
    } else if name == "enumerate"@ {
        Some(with_arity(name, 1, args, enumerated(args)))
    } else if name == "contains"@ {
        Some(with_arity(name, 2, args, contains_value(args)))
    } else if name == "is_empty"@ {
        Some(with_arity(name, 1, args, is_empty_value(args)))
    } else if name == "count"@ {
        Some(with_arity(name, 2, args, count_value_of(args)))
    } else if name == "sum"@ {
        Some(with_arity(name, 1, args, sum_value(args)))
    } else if name == "reverse"@ {
        Some(with_arity(name, 1, args, reverse_value(args)))
    } else if name == "sort"@ {
        Some(with_arity(name, 1, args, sort_value(args)))
    } else if name == "range"@ {
        Some(range_value(args))
    } else {
        None
    }
}

/// The builtins on numbers.
pub open spec fn number_builtin(name: Str, args: Seq<Val>) -> Option<Result<Val, Str>> {
    if name == "abs"@ {
        Some(with_arity(name, 1, args, abs_value(args)))
    } else if name == "min"@ || name == "max"@ {
        Some(with_arity(name, 2, args, extreme(name, args)))
    } else if name == "pow"@ {
        Some(with_arity(name, 2, args, pow_value(args)))
    } else {
        None
    }
}

pub fn call_collection_builtin(name: &str, args: &Vec<ZapValue>) -> (r: Option<
    Result<ZapValue, String>,
>)
    ensures
        told_some(r) == collection_builtin(name@, views(args@)),
{
    let n: usize = args.len();
    if same(name, "len") {
        if n != 1 {
            return Some(arity_failure(name, 1, n));
        }
        Some(do_len(args))
    } else if same(name, "append") {
        if n != 2 {
            return Some(arity_failure(name, 2, n));
        }
        Some(do_append(args))
    } else if same(name, "type") {
        if n != 1 {
            return Some(arity_failure(name, 1, n));
        }
        Some(Ok(text_value(value_type_name(&args[0]))))
    } else if same(name, "get") {
        if n != 3 {
            return Some(arity_failure(name, 3, n));
        }
        Some(do_get(args))
    } else if same(name, "map_set") {
        if n != 3 {
            return Some(arity_failure(name, 3, n));
        }
        Some(do_map_set(args))
    } else if same(name, "keys") {
        if n != 1 {
            return Some(arity_failure(name, 1, n));
        }
        Some(do_keys(args))
    } else if same(name, "entries") {
        if n != 1 {
            return Some(arity_failure(name, 1, n));
        }
        Some(do_entries(args))
    } else if same(name, "enumerate") {
        if n != 1 {
            return Some(arity_failure(name, 1, n));
        }
        Some(do_enumerate(args))
    } else if same(name, "contains") {
        if n != 2 {
            return Some(arity_failure(name, 2, n));
        }
        Some(do_contains(args))
    } else if same(name, "is_empty") {
        if n != 1 {
            return Some(arity_failure(name, 1, n));
        }
        Some(do_is_empty(args))
    } else if same(name, "count") {
        if n != 2 {
            return Some(arity_failure(name, 2, n));
        }
        Some(do_count(args))
    } else if same(name, "sum") {
        if n != 1 {
            return Some(arity_failure(name, 1, n));
        }
        Some(do_sum(args))
    } else if same(name, "reverse") {
        if n != 1 {
            return Some(arity_failure(name, 1, n));
        }
        Some(do_reverse(args))
    } else if same(name, "sort") {
        if n != 1 {
            return Some(arity_failure(name, 1, n));
        }
        Some(do_sort(args))
    } else if same(name, "range") {
        Some(do_range(args))
    } else {
        None
    }
}

pub fn call_number_builtin(name: &str, args: &Vec<ZapValue>) -> (r: Option<
    Result<ZapValue, String>,
>)
    ensures
        told_some(r) == number_builtin(name@, views(args@)),
{
    let n: usize = args.len();
    if same(name, "abs") {
        if n != 1 {
            return Some(arity_failure(name, 1, n));
        }
        Some(do_abs(args))
    } else if same(name, "min") || same(name, "max") {
        if n != 2 {
            return Some(arity_failure(name, 2, n));
        }
        Some(do_extreme(name, args))
    } else if same(name, "pow") {
        if n != 2 {
            return Some(arity_failure(name, 2, n));
        }
        Some(do_pow(args))
    } else {
        None
    }
}

} // verus!
