//! Operators, ranges, powers and sorting.

use crate::ast::{views, BinaryOp};
use crate::text::{decimal, join2, join3, length_text, less, lemma_less_total, text_order, texts,
    Order, Str};
use crate::value::{equal, fail, told, Val, ZapValue, MAX_RUNTIME_COLLECTION_ITEMS};
use vstd::arithmetic::power::{lemma_pow0, lemma_pow1, pow};
use vstd::prelude::*;

verus! {

pub const MAX_POW_EXPONENT: i64 = 1_000_000;

pub open spec fn overflow_error() -> Str {
    "integer overflow"@
}

/// A number of the language, if it is in range.
pub open spec fn in_range(n: int) -> Result<Val, Str> {
    if i64::MIN <= n <= i64::MAX {
        Ok(Val::Number(n as i64))
    } else {
        Err(overflow_error())
    }
}

pub open spec fn magnitude(n: int) -> int {
    if n < 0 {
        -n
    } else {
        n
    }
}

/// The quotient of a division that rounds towards zero.
pub open spec fn quotient(x: int, y: int) -> int {
    let q = magnitude(x) / magnitude(y);
    if (x < 0) == (y < 0) {
        q
    } else {
        -q
    }
}

/// The remainder of a division that rounds towards zero; it has the sign of the dividend.
pub open spec fn remainder(x: int, y: int) -> int {
    let m = magnitude(x) % magnitude(y);
    if x < 0 {
        -m
    } else {
        m
    }
}

/// The result of a binary operator.
pub open spec fn operated(a: Val, op: BinaryOp, b: Val) -> Result<Val, Str> {
    match op {
        BinaryOp::Equal => Ok(Val::Bool(equal(a, b))),
        BinaryOp::NotEqual => Ok(Val::Bool(!equal(a, b))),
        _ => match (a, b) {
            (Val::Number(x), Val::Number(y)) => match op {
                BinaryOp::Add => in_range(x + y),
                BinaryOp::Subtract => in_range(x - y),
                BinaryOp::Multiply => in_range(x * y),
                BinaryOp::Divide => if y == 0 {
                    Err("division by zero"@)
                } else {
                    in_range(quotient(x as int, y as int))
                },
                BinaryOp::Remainder => if y == 0 {
                    Err("division by zero"@)
                } else if x == i64::MIN && y == -1 {
                    Err(overflow_error())
                } else {
                    in_range(remainder(x as int, y as int))
                },
                BinaryOp::Less => Ok(Val::Bool(x < y)),
                BinaryOp::Greater => Ok(Val::Bool(x > y)),
                BinaryOp::LessEqual => Ok(Val::Bool(x <= y)),
                BinaryOp::GreaterEqual => Ok(Val::Bool(x >= y)),
                _ => Err("invalid operation"@),
            },
            (Val::Text(x), Val::Text(y)) => if op == BinaryOp::Add {
                Ok(Val::Text(x + y))
            } else {
                Err("invalid operation"@)
            },
            (Val::Bool(x), Val::Bool(y)) => if op == BinaryOp::And {
                Ok(Val::Bool(x && y))
            } else if op == BinaryOp::Or {
                Ok(Val::Bool(x || y))
            } else {
                Err("invalid operation"@)
            },
            _ => Err("invalid operation"@),
        },
    }
}

fn magnitude_of(n: i64) -> (r: u64)
    ensures
        r == magnitude(n as int),
        r <= 0x8000_0000_0000_0000,
{
    if n < 0 {
        let wide: i128 = -(n as i128);
        wide as u64
    } else {
        n as u64
    }
}

fn with_sign(negative: bool, n: u64) -> (r: Result<ZapValue, String>)
    requires
        n <= 0x8000_0000_0000_0000,
    ensures
        told(r) == in_range(
            if negative {
                -(n as int)
            } else {
                n as int
            },
        ),
{
    let wide: i128 = if negative {
        -(n as i128)
    } else {
        n as i128
    };
    if wide < i64::MIN as i128 || wide > i64::MAX as i128 {
        fail("integer overflow")
    } else {
        Ok(ZapValue::Number(wide as i64))
    }
}

fn divide(x: i64, y: i64) -> (r: Result<ZapValue, String>)
    requires
        y != 0,
    ensures
        told(r) == in_range(quotient(x as int, y as int)),
{
    let p: u64 = magnitude_of(x);
    let d: u64 = magnitude_of(y);
    let q: u64 = p / d;
    assert(q <= p) by (nonlinear_arith)
        requires
            q == p / d,
            d > 0,
    ;
    with_sign((x < 0) != (y < 0), q)
}

fn remain(x: i64, y: i64) -> (r: Result<ZapValue, String>)
    requires
        y != 0,
    ensures
        told(r) == in_range(remainder(x as int, y as int)),
{
    let p: u64 = magnitude_of(x);
    let d: u64 = magnitude_of(y);
    let m: u64 = p % d;
    assert(m < d) by (nonlinear_arith)
        requires
            m == p % d,
            d > 0,
    ;
    with_sign(x < 0, m)
}

fn number_or_overflow(n: Option<i64>) -> (r: Result<ZapValue, String>)
    ensures
        told(r) == (match n {
            Some(x) => Ok(Val::Number(x)),
            None => Err(overflow_error()),
        }),
{
    match n {
        Some(x) => Ok(ZapValue::Number(x)),
        None => fail("integer overflow"),
    }
}

/// Applies a binary operator to two values.
pub fn operate(a: &ZapValue, op: BinaryOp, b: &ZapValue) -> (r: Result<ZapValue, String>)
    ensures
        told(r) == operated(a@, op, b@),
{
    match op {
        BinaryOp::Equal => {
            return Ok(ZapValue::Bool(a.equals(b)));
        },
        BinaryOp::NotEqual => {
            return Ok(ZapValue::Bool(!a.equals(b)));
        },
        _ => {},
    }
    match (a, b) {
        (ZapValue::Number(p), ZapValue::Number(q)) => {
            let x: i64 = *p;
            let y: i64 = *q;
            match op {
                BinaryOp::Add => number_or_overflow(x.checked_add(y)),
                BinaryOp::Subtract => number_or_overflow(x.checked_sub(y)),
                BinaryOp::Multiply => number_or_overflow(x.checked_mul(y)),
                BinaryOp::Divide => if y == 0 {
                    fail("division by zero")
                } else {
                    divide(x, y)
                },
                BinaryOp::Remainder => if y == 0 {
                    fail("division by zero")
                } else if x == i64::MIN && y == -1 {
                    fail("integer overflow")
                } else {
                    remain(x, y)
                },
                BinaryOp::Less => Ok(ZapValue::Bool(x < y)),
                BinaryOp::Greater => Ok(ZapValue::Bool(x > y)),
                BinaryOp::LessEqual => Ok(ZapValue::Bool(x <= y)),
                BinaryOp::GreaterEqual => Ok(ZapValue::Bool(x >= y)),
                _ => fail("invalid operation"),
            }
        },
        (ZapValue::Text(x), ZapValue::Text(y)) => if op == BinaryOp::Add {
            Ok(ZapValue::Text(join2(x.as_str(), y.as_str())))
        } else {
            fail("invalid operation")
        },
        (ZapValue::Bool(x), ZapValue::Bool(y)) => if op == BinaryOp::And {
            Ok(ZapValue::Bool(*x && *y))
        } else if op == BinaryOp::Or {
            Ok(ZapValue::Bool(*x || *y))
        } else {
            fail("invalid operation")
        },
        _ => fail("invalid operation"),
    }
}

// ---------------------------------------------------------------------------
// Ranges and powers
// ---------------------------------------------------------------------------

/// The complaint about a builtin that would make too many items.
pub open spec fn too_many(operation: Str) -> Str {
    "memory limit exceeded: "@ + operation + " produced more than "@ + decimal(
        MAX_RUNTIME_COLLECTION_ITEMS as int,
    ) + " items"@
}

pub fn too_many_error(operation: &str) -> (r: String)
    ensures
        r@ == too_many(operation@),
{
    crate::text::join5(
        "memory limit exceeded: ",
        operation,
        " produced more than ",
        length_text(MAX_RUNTIME_COLLECTION_ITEMS).as_str(),
        " items",
    )
}

/// The numbers from `start` up to but not including `end`.
pub open spec fn range_values(start: i64, end: i64) -> Result<Seq<Val>, Str> {
    if end - start > MAX_RUNTIME_COLLECTION_ITEMS {
        Err(too_many("range"@))
    } else {
        Ok(
            Seq::new(
                if end > start {
                    (end - start) as nat
                } else {
                    0
                },
                |i: int| Val::Number((start + i) as i64),
            ),
        )
    }
}

pub open spec fn told_values(r: Result<Vec<ZapValue>, String>) -> Result<Seq<Val>, Str> {
    match r {
        Ok(values) => Ok(views(values@)),
        Err(error) => Err(error@),
    }
}

pub fn bounded_range_values(start: i64, end: i64) -> (r: Result<Vec<ZapValue>, String>)
    ensures
        told_values(r) == range_values(start, end),
{
    let count: i128 = end as i128 - start as i128;
    if count > MAX_RUNTIME_COLLECTION_ITEMS as i128 {
        return Err(too_many_error("range"));
    }
    let mut out: Vec<ZapValue> = Vec::new();
    let mut n: i64 = start;
    while n < end
        invariant
            start <= n,
            end <= start ==> n == start,
            end > start ==> n <= end,
            out@.len() == n - start,
            forall|i: int|
                0 <= i < out@.len() ==> (#[trigger] out@[i])@ == Val::Number((start + i) as i64),
        decreases end - n,
    {
        out.push(ZapValue::Number(n));
        n += 1;
    }
    assert(views(out@) =~= range_values(start, end)->Ok_0);
    Ok(out)
}

/// A power with a bounded exponent, if it is in range.
pub open spec fn power(base: i64, exponent: i64) -> Result<Val, Str> {
    if exponent > MAX_POW_EXPONENT {
        Err("pow exponent exceeds the "@ + decimal(MAX_POW_EXPONENT as int) + " limit"@)
    } else {
        in_range(pow(base as int, exponent as nat))
    }
}

proof fn lemma_pow_step(b: int, k: nat)
    ensures
        pow(b, k + 1) == pow(b, k) * b,
{
    vstd::arithmetic::power::lemma_pow_adds(b, k, 1);
    lemma_pow1(b);
}

proof fn lemma_pow_small(b: int, n: nat)
    requires
        b == 0 || b == 1 || b == -1,
    ensures
        b == 0 ==> pow(b, n) == (if n == 0 {
            1int
        } else {
            0
        }),
        b == 1 ==> pow(b, n) == 1,
        b == -1 ==> pow(b, n) == (if n % 2 == 0 {
            1int
        } else {
            -1
        }),
    decreases n,
{
    if n == 0 {
        lemma_pow0(b);
    } else {
        lemma_pow_small(b, (n - 1) as nat);
        lemma_pow_step(b, (n - 1) as nat);
    }
}

proof fn lemma_pow_grows(b: int, k: nat, n: nat)
    requires
        b >= 2 || b <= -2,
        k <= n,
    ensures
        k < n ==> magnitude(pow(b, n)) >= 2 * magnitude(pow(b, k)),
        k == n ==> magnitude(pow(b, n)) == magnitude(pow(b, k)),
    decreases n - k,
{
    if k < n {
        lemma_pow_grows(b, k, (n - 1) as nat);
        lemma_pow_step(b, (n - 1) as nat);
        let p = pow(b, (n - 1) as nat);
        assert(magnitude(p * b) >= 2 * magnitude(p)) by (nonlinear_arith)
            requires
                b >= 2 || b <= -2,
        ;
    }
}

/// Raises a number to a power without overflow.
pub fn checked_integer_pow(base: i64, exponent: i64) -> (r: Result<ZapValue, String>)
    requires
        exponent >= 0,
    ensures
        told(r) == power(base, exponent),
{
    if exponent > MAX_POW_EXPONENT {
        return Err(
            join3(
                "pow exponent exceeds the ",
                crate::text::number_text(MAX_POW_EXPONENT).as_str(),
                " limit",
            ),
        );
    }
    if base == 0 || base == 1 || base == -1 {
        proof {
            lemma_pow_small(base as int, exponent as nat);
        }
        let result: i64 = if base == 1 || exponent == 0 {
            1
        } else if base == 0 {
            0
        } else if exponent % 2 == 0 {
            1
        } else {
            -1
        };
        return Ok(ZapValue::Number(result));
    }
    let mut total: i64 = 1;
    let mut k: i64 = 0;
    proof {
        lemma_pow0(base as int);
    }
    while k < exponent
        invariant
            0 <= k <= exponent <= MAX_POW_EXPONENT,
            base >= 2 || base <= -2,
            total == pow(base as int, k as nat),
        decreases exponent - k,
    {
        proof {
            lemma_pow_step(base as int, k as nat);
            lemma_pow_grows(base as int, (k + 1) as nat, exponent as nat);
        }
        match total.checked_mul(base) {
            Some(next) => {
                total = next;
            },
            None => {
                return fail("integer overflow");
            },
        }
        k += 1;
    }
    Ok(ZapValue::Number(total))
}

// ---------------------------------------------------------------------------
// Sorting
// ---------------------------------------------------------------------------

/// The first position whose number is greater than `x`.
pub open spec fn number_slot(s: Seq<i64>, x: i64, i: int) -> int
    decreases s.len() - i,
{
    if 0 <= i < s.len() && s[i] <= x {
        number_slot(s, x, i + 1)
    } else {
        i
    }
}

/// The first `n` numbers in rising order: each is put behind those that are not greater.
pub open spec fn sorted_numbers(s: Seq<i64>, n: nat) -> Seq<i64>
    decreases n,
{
    if n == 0 || n > s.len() {
        Seq::empty()
    } else {
        let rest = sorted_numbers(s, (n - 1) as nat);
        rest.insert(number_slot(rest, s[n - 1], 0), s[n - 1])
    }
}

pub open spec fn rising(s: Seq<i64>) -> bool {
    forall|i: int, j: int| 0 <= i <= j < s.len() ==> s[i] <= s[j]
}

/// The first position whose text stands behind `x`.
pub open spec fn text_slot(s: Seq<Str>, x: Str, i: int) -> int
    decreases s.len() - i,
{
    if 0 <= i < s.len() && !less(x, s[i]) {
        text_slot(s, x, i + 1)
    } else {
        i
    }
}

/// The first `n` texts in their order: each is put behind those that do not stand behind it.
pub open spec fn sorted_texts(s: Seq<Str>, n: nat) -> Seq<Str>
    decreases n,
{
    if n == 0 || n > s.len() {
        Seq::empty()
    } else {
        let rest = sorted_texts(s, (n - 1) as nat);
        rest.insert(text_slot(rest, s[n - 1], 0), s[n - 1])
    }
}

pub proof fn lemma_number_slot(s: Seq<i64>, x: i64, i: int)
    requires
        0 <= i <= s.len(),
    ensures
        i <= number_slot(s, x, i) <= s.len(),
        forall|k: int| i <= k < number_slot(s, x, i) ==> #[trigger] s[k] <= x,
        number_slot(s, x, i) < s.len() ==> s[number_slot(s, x, i)] > x,
    decreases s.len() - i,
{
    if i < s.len() && s[i] <= x {
        lemma_number_slot(s, x, i + 1);
    }
}

pub proof fn lemma_text_slot(s: Seq<Str>, x: Str, i: int)
    requires
        0 <= i <= s.len(),
    ensures
        i <= text_slot(s, x, i) <= s.len(),
        forall|k: int| i <= k < text_slot(s, x, i) ==> !less(x, #[trigger] s[k]),
        text_slot(s, x, i) < s.len() ==> less(x, s[text_slot(s, x, i)]),
    decreases s.len() - i,
{
    if i < s.len() && !less(x, s[i]) {
        lemma_text_slot(s, x, i + 1);
    }
}

/// Sorting keeps the length and gives numbers in rising order.
pub proof fn lemma_sorted_numbers(s: Seq<i64>, n: nat)
    requires
        n <= s.len(),
    ensures
        sorted_numbers(s, n).len() == n,
        rising(sorted_numbers(s, n)),
    decreases n,
{
    if n > 0 {
        lemma_sorted_numbers(s, (n - 1) as nat);
        let rest = sorted_numbers(s, (n - 1) as nat);
        lemma_number_slot(rest, s[n - 1], 0);
    }
}

pub proof fn lemma_sorted_texts_len(s: Seq<Str>, n: nat)
    requires
        n <= s.len(),
    ensures
        sorted_texts(s, n).len() == n,
    decreases n,
{
    if n > 0 {
        lemma_sorted_texts_len(s, (n - 1) as nat);
        let rest = sorted_texts(s, (n - 1) as nat);
        lemma_text_slot(rest, s[n - 1], 0);
    }
}

proof fn lemma_number_slot_at(s: Seq<i64>, x: i64, from: int, at: int)
    requires
        0 <= from <= at <= s.len(),
        forall|k: int| from <= k < at ==> #[trigger] s[k] <= x,
        at < s.len() ==> s[at] > x,
    ensures
        number_slot(s, x, from) == at,
    decreases at - from,
{
    if from < at {
        lemma_number_slot_at(s, x, from + 1, at);
    }
}

pub fn sort_numbers(v: &Vec<i64>) -> (r: Vec<i64>)
    ensures
        r@ == sorted_numbers(v@, v@.len()),
{
    let mut out: Vec<i64> = Vec::new();
    let mut i: usize = 0;
    assert(out@ =~= Seq::<i64>::empty());
    while i < v.len()
        invariant
            i <= v@.len(),
            out@ == sorted_numbers(v@, i as nat),
        decreases v.len() - i,
    {
        let x: i64 = v[i];
        proof {
            lemma_sorted_numbers(v@, i as nat);
        }
        let mut low: usize = 0;
        let mut high: usize = out.len();
        while low < high
            invariant
                low <= high <= out.len(),
                rising(out@),
                forall|k: int| 0 <= k < low ==> #[trigger] out@[k] <= x,
                forall|k: int| high <= k < out@.len() ==> #[trigger] out@[k] > x,
            decreases high - low,
        {
            let middle: usize = low + (high - low) / 2;
            if out[middle] <= x {
                low = middle + 1;
            } else {
                high = middle;
            }
        }
        proof {
            lemma_number_slot_at(out@, x, 0, low as int);
        }
        out.insert(low, x);
        i += 1;
    }
    out
}

pub fn sort_texts(v: &Vec<String>) -> (r: Vec<String>)
    ensures
        texts(r@) == sorted_texts(texts(v@), v@.len()),
{
    let mut out: Vec<String> = Vec::new();
    let mut i: usize = 0;
    assert(texts(out@) =~= Seq::<Str>::empty());
    while i < v.len()
        invariant
            i <= v@.len(),
            texts(out@) == sorted_texts(texts(v@), i as nat),
        decreases v.len() - i,
    {
        let mut at: usize = 0;
        while at < out.len() && text_order(v[i].as_str(), out[at].as_str()) != Order::Before
            invariant
                i < v@.len(),
                at <= out@.len(),
                text_slot(texts(out@), v@[i as int]@, 0) == text_slot(
                    texts(out@),
                    v@[i as int]@,
                    at as int,
                ),
            decreases out.len() - at,
        {
            proof {
                lemma_less_total(v@[i as int]@, out@[at as int]@);
                assert(texts(out@)[at as int] == out@[at as int]@);
            }
            at += 1;
        }
        proof {
            if at < out@.len() {
                assert(texts(out@)[at as int] == out@[at as int]@);
            }
            assert(texts(v@)[i as int] == v@[i as int]@);
        }
        let ghost earlier = out@;
        out.insert(at, v[i].clone());
        assert(texts(out@) =~= texts(earlier).insert(at as int, v@[i as int]@));
        i += 1;
    }
    out
}

} // verus!
