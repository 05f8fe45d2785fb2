//! What operators do: arithmetic, order, equality, logic, and what indexing and members give.

use crate::ast::{BinaryOp, ExprM, LiteralM, UnaryOp};
use crate::numbers::{operated, power, range_values};
use crate::runtime::joined;
use crate::semantics::{awaited, charged, eval, eval_binary, eval_inner, item_of, literal, member_of,
    named, outcome, propagated, unary_result, OutcomeM};
use crate::table::{get, lemma_get_found, lemma_get_put_same, put, Rows};
use crate::text::Str;
use crate::value::{equal, truthy, Fun, Val};
use crate::world::{hold_values, World};
use vstd::arithmetic::power::pow;
use vstd::prelude::*;

verus! {

/// What a binary operator gives for two numbers.
pub open spec fn on_numbers(x: i64, op: BinaryOp, y: i64) -> Result<Val, Str> {
    operated(Val::Number(x), op, Val::Number(y))
}

/// The comparisons of numbers say how the numbers are ordered, and agree with each other.
pub proof fn law_comparisons_agree(x: i64, y: i64)
    ensures
        on_numbers(x, BinaryOp::Less, y) == Ok::<Val, Str>(Val::Bool(y - x > 0)),
        on_numbers(x, BinaryOp::GreaterEqual, y) == Ok::<Val, Str>(Val::Bool(x - y >= 0)),
        on_numbers(x, BinaryOp::GreaterEqual, y) == on_numbers(y, BinaryOp::LessEqual, x),
        on_numbers(x, BinaryOp::Greater, y) == on_numbers(y, BinaryOp::Less, x),
        on_numbers(x, BinaryOp::GreaterEqual, y) != on_numbers(x, BinaryOp::Less, y),
        on_numbers(x, BinaryOp::LessEqual, y) != on_numbers(x, BinaryOp::Greater, y),
        on_numbers(x, BinaryOp::Greater, y) == Ok::<Val, Str>(Val::Bool(true)) ==> on_numbers(
            x,
            BinaryOp::GreaterEqual,
            y,
        ) == Ok::<Val, Str>(Val::Bool(true)),
        on_numbers(x, BinaryOp::Equal, y) == Ok::<Val, Str>(Val::Bool(true)) <==> (on_numbers(
            x,
            BinaryOp::GreaterEqual,
            y,
        ) == Ok::<Val, Str>(Val::Bool(true)) && on_numbers(x, BinaryOp::LessEqual, y) == Ok::<
            Val,
            Str,
        >(Val::Bool(true))),
{
}

/// Addition, subtraction and multiplication are those of the integers, and fail exactly where the
/// result has no place in 64 bits. Subtraction undoes addition.
pub proof fn law_arithmetic_is_exact(x: i64, y: i64, z: i64)
    ensures
        on_numbers(x, BinaryOp::Add, y) == Ok::<Val, Str>(Val::Number(z)) <==> z == x + y,
        on_numbers(x, BinaryOp::Subtract, y) == Ok::<Val, Str>(Val::Number(z)) <==> z == x - y,
        on_numbers(x, BinaryOp::Multiply, y) == Ok::<Val, Str>(Val::Number(z)) <==> z == x * y,
        on_numbers(x, BinaryOp::Add, y) == Err::<Val, Str>("integer overflow"@) <==> !(
        -0x8000_0000_0000_0000 <= x + y <= 0x7fff_ffff_ffff_ffff),
        on_numbers(x, BinaryOp::Subtract, y) == Err::<Val, Str>("integer overflow"@) <==> !(
        -0x8000_0000_0000_0000 <= x - y <= 0x7fff_ffff_ffff_ffff),
        on_numbers(x, BinaryOp::Multiply, y) == Err::<Val, Str>("integer overflow"@) <==> !(
        -0x8000_0000_0000_0000 <= x * y <= 0x7fff_ffff_ffff_ffff),
        on_numbers(x, BinaryOp::Add, y) == Ok::<Val, Str>(Val::Number(z)) ==> on_numbers(
            z,
            BinaryOp::Subtract,
            y,
        ) == Ok::<Val, Str>(Val::Number(x)),
        on_numbers(x, BinaryOp::Add, y) == on_numbers(y, BinaryOp::Add, x),
        on_numbers(x, BinaryOp::Multiply, y) == on_numbers(y, BinaryOp::Multiply, x),
{
    assert(x * y == y * x) by (nonlinear_arith);
}

proof fn lemma_division(p: int, d: int)
    requires
        p >= 0,
        d > 0,
    ensures
        p == d * (p / d) + p % d,
        0 <= p % d < d,
        0 <= p / d <= p,
        (-d) * (p / d) == -(d * (p / d)),
        d * (-(p / d)) == -(d * (p / d)),
        (-d) * (-(p / d)) == d * (p / d),
{
    assert(p == d * (p / d) + p % d && 0 <= p % d < d && 0 <= p / d <= p) by (nonlinear_arith)
        requires
            p >= 0,
            d > 0,
    ;
    let q = p / d;
    assert((-d) * q == -(d * q) && d * (-q) == -(d * q) && (-d) * (-q) == d * q)
        by (nonlinear_arith);
}

/// A division and its remainder make up the dividend; the remainder is smaller than the divisor
/// and has the sign of the dividend. Only a divisor of zero, and the one quotient without a place
/// in 64 bits, are errors.
pub proof fn law_division_rounds_towards_zero(x: i64, y: i64)
    ensures
        y == 0 ==> on_numbers(x, BinaryOp::Divide, y) == Err::<Val, Str>("division by zero"@)
            && on_numbers(x, BinaryOp::Remainder, y) == Err::<Val, Str>("division by zero"@),
        x == -0x8000_0000_0000_0000 && y == -1 ==> on_numbers(x, BinaryOp::Divide, y) == Err::<
            Val,
            Str,
        >("integer overflow"@) && on_numbers(x, BinaryOp::Remainder, y) == Err::<Val, Str>(
            "integer overflow"@,
        ),
        y != 0 && !(x == -0x8000_0000_0000_0000 && y == -1) ==> {
            &&& on_numbers(x, BinaryOp::Divide, y) is Ok
            &&& on_numbers(x, BinaryOp::Divide, y)->Ok_0 is Number
            &&& on_numbers(x, BinaryOp::Remainder, y) is Ok
            &&& on_numbers(x, BinaryOp::Remainder, y)->Ok_0 is Number
            &&& ({
                let q = on_numbers(x, BinaryOp::Divide, y)->Ok_0->Number_0;
                let r = on_numbers(x, BinaryOp::Remainder, y)->Ok_0->Number_0;
                &&& x == y * q + r
                &&& if y > 0 {
                    -y < r < y
                } else {
                    y < r < -y
                }
                &&& (x >= 0 ==> r >= 0)
                &&& (x <= 0 ==> r <= 0)
            })
        },
{
    let p: int = if x < 0 {
        -(x as int)
    } else {
        x as int
    };
    let d: int = if y < 0 {
        -(y as int)
    } else {
        y as int
    };
    if y != 0 {
        lemma_division(p, d);
        if d == 1 {
            assert(p / d == p && p % d == 0) by (nonlinear_arith)
                requires
                    d == 1,
            ;
        }
        if p / d == 0x8000_0000_0000_0000 && d > 1 {
            assert(d * (p / d) >= 2 * (p / d)) by (nonlinear_arith)
                requires
                    d >= 2,
                    p / d >= 0,
            ;
        }
    }
}

/// Texts are put together by `+`: the first in front of the second. No other operator but the
/// comparison for equality takes texts.
pub proof fn law_texts_are_put_together(a: Str, b: Str, op: BinaryOp)
    ensures
        operated(Val::Text(a), BinaryOp::Add, Val::Text(b)) matches Ok(Val::Text(s)) && s.len()
            == a.len() + b.len() && s.take(a.len() as int) == a && s.skip(a.len() as int) == b,
        op != BinaryOp::Add && op != BinaryOp::Equal && op != BinaryOp::NotEqual ==> operated(
            Val::Text(a),
            op,
            Val::Text(b),
        ) is Err,
{
    assert((a + b).take(a.len() as int) =~= a);
    assert((a + b).skip(a.len() as int) =~= b);
}

/// `and` is true where both sides are, `or` where one of them is, and `not` turns a truth value
/// round.
pub proof fn law_logic(x: bool, y: bool)
    ensures
        operated(Val::Bool(x), BinaryOp::And, Val::Bool(y)) == Ok::<Val, Str>(Val::Bool(true)) <==> (
        x && y),
        operated(Val::Bool(x), BinaryOp::And, Val::Bool(y)) == Ok::<Val, Str>(Val::Bool(false))
            <==> !(x && y),
        operated(Val::Bool(x), BinaryOp::Or, Val::Bool(y)) == Ok::<Val, Str>(Val::Bool(true)) <==> (
        x || y),
        operated(Val::Bool(x), BinaryOp::Or, Val::Bool(y)) == Ok::<Val, Str>(Val::Bool(false)) <==> (
        !x && !y),
        unary_result(UnaryOp::Not, Val::Bool(x)) == Ok::<Val, Str>(Val::Bool(!x)),
{
}

/// Values of different kinds cannot be calculated with, nor ordered; lists, maps, objects and the
/// like not at all.
pub proof fn law_operators_refuse_other_kinds(a: Val, op: BinaryOp, b: Val)
    requires
        op != BinaryOp::Equal && op != BinaryOp::NotEqual,
        !(a is Number && b is Number) && !(a is Text && b is Text) && !(a is Bool && b is Bool),
    ensures
        operated(a, op, b) == Err::<Val, Str>("invalid operation"@),
{
}

/// Truth values are neither ordered nor calculated with, and numbers are not joined by `and` or
/// `or`.
pub proof fn law_operators_stay_with_their_kind(x: bool, y: bool, m: i64, n: i64, op: BinaryOp)
    ensures
        op != BinaryOp::And && op != BinaryOp::Or && op != BinaryOp::Equal && op
            != BinaryOp::NotEqual ==> operated(Val::Bool(x), op, Val::Bool(y)) is Err,
        op == BinaryOp::And || op == BinaryOp::Or ==> on_numbers(m, op, n) is Err,
{
}

/// The negation of a number is what added to it gives zero; only the smallest number has none.
pub proof fn law_negation(n: i64, m: i64)
    ensures
        unary_result(UnaryOp::Negate, Val::Number(n)) == Ok::<Val, Str>(Val::Number(m)) <==> n + m
            == 0,
        unary_result(UnaryOp::Negate, Val::Number(n)) is Err <==> n == -0x8000_0000_0000_0000,
{
}

/// Only numbers can be negated.
pub proof fn law_only_numbers_are_negated(v: Val)
    requires
        !(v is Number),
    ensures
        unary_result(UnaryOp::Negate, v) == Err::<Val, Str>("unary '-' expects a number"@),
{
}

/// What counts as false: nothing, false, zero, what is empty, an error and an empty option. All
/// else counts as true, and `not` says which it is.
pub proof fn law_what_counts_as_true(v: Val)
    ensures
        !truthy(v) <==> {
            ||| v is Nil
            ||| v == Val::Bool(false)
            ||| v == Val::Number(0)
            ||| v is Text && v->Text_0.len() == 0
            ||| v is List && v->List_0.len() == 0
            ||| v is Dict && v->Dict_0.len() == 0
            ||| v is ResultErr
            ||| v is OptionNone
        },
        unary_result(UnaryOp::Not, v) == Ok::<Val, Str>(Val::Bool(!truthy(v))),
{
}

// ---------------------------------------------------------------------------
// Equality
// ---------------------------------------------------------------------------

/// Every value equals itself.
pub proof fn law_equality_is_reflexive(v: Val)
    ensures
        equal(v, v),
    decreases v,
{
    match v {
        Val::List(items) => {
            assert forall|i: int| 0 <= i < items.len() implies equal(#[trigger] items[i], items[i])
                by {
                law_equality_is_reflexive(items[i]);
            }
        },
        Val::Dict(rows) => {
            assert forall|i: int| 0 <= i < rows.len() implies (#[trigger] rows[i]).0 == rows[i].0
                && equal(rows[i].1, rows[i].1) by {
                law_equality_is_reflexive(rows[i].1);
            }
        },
        Val::ResultOk(x) => {
            law_equality_is_reflexive(*x);
        },
        Val::ResultErr(x) => {
            law_equality_is_reflexive(*x);
        },
        Val::OptionSome(x) => {
            law_equality_is_reflexive(*x);
        },
        Val::Future(x) => {
            law_equality_is_reflexive(*x);
        },
        _ => {},
    }
}

/// Equality does not depend on the order of the two values.
pub proof fn law_equality_is_symmetric(a: Val, b: Val)
    requires
        equal(a, b),
    ensures
        equal(b, a),
    decreases a,
{
    match (a, b) {
        (Val::List(x), Val::List(y)) => {
            assert forall|i: int| 0 <= i < y.len() implies equal(#[trigger] y[i], x[i]) by {
                assert(equal(x[i], y[i]));
                law_equality_is_symmetric(x[i], y[i]);
            }
        },
        (Val::Dict(x), Val::Dict(y)) => {
            assert forall|i: int| 0 <= i < y.len() implies (#[trigger] y[i]).0 == x[i].0 && equal(
                y[i].1,
                x[i].1,
            ) by {
                assert(x[i].0 == y[i].0 && equal(x[i].1, y[i].1));
                law_equality_is_symmetric(x[i].1, y[i].1);
            }
        },
        (Val::ResultOk(x), Val::ResultOk(y)) => {
            law_equality_is_symmetric(*x, *y);
        },
        (Val::ResultErr(x), Val::ResultErr(y)) => {
            law_equality_is_symmetric(*x, *y);
        },
        (Val::OptionSome(x), Val::OptionSome(y)) => {
            law_equality_is_symmetric(*x, *y);
        },
        (Val::Future(x), Val::Future(y)) => {
            law_equality_is_symmetric(*x, *y);
        },
        _ => {},
    }
}

/// Whether two values are of one variant.
pub open spec fn same_variant(a: Val, b: Val) -> bool {
    match (a, b) {
        (Val::Nil, Val::Nil) => true,
        (Val::Bool(_), Val::Bool(_)) => true,
        (Val::Number(_), Val::Number(_)) => true,
        (Val::Text(_), Val::Text(_)) => true,
        (Val::List(_), Val::List(_)) => true,
        (Val::Dict(_), Val::Dict(_)) => true,
        (Val::Object { .. }, Val::Object { .. }) => true,
        (Val::ResultOk(_), Val::ResultOk(_)) => true,
        (Val::ResultErr(_), Val::ResultErr(_)) => true,
        (Val::OptionSome(_), Val::OptionSome(_)) => true,
        (Val::OptionNone, Val::OptionNone) => true,
        (Val::Callable(_), Val::Callable(_)) => true,
        (Val::Future(_), Val::Future(_)) => true,
        (Val::ScheduledFuture(_), Val::ScheduledFuture(_)) => true,
        _ => false,
    }
}

/// Equal values are of one variant; plain ones are the same, collections are equal place by place,
/// and objects are the same object. `!=` is the contrary of `==`.
pub proof fn law_equality_is_by_content(a: Val, b: Val, i: int)
    ensures
        equal(a, b) ==> same_variant(a, b),
        (a is Bool || a is Number || a is Text || a is Nil) ==> (equal(a, b) <==> a == b),
        a is Object && b is Object ==> (equal(a, b) <==> a->id == b->id),
        a is List && b is List && equal(a, b) ==> a->List_0.len() == b->List_0.len() && (0 <= i
            < a->List_0.len() ==> equal(a->List_0[i], b->List_0[i])),
        a is Dict && b is Dict && equal(a, b) ==> a->Dict_0.len() == b->Dict_0.len() && (0 <= i
            < a->Dict_0.len() ==> a->Dict_0[i].0 == b->Dict_0[i].0 && equal(
            a->Dict_0[i].1,
            b->Dict_0[i].1,
        )),
        a is ResultOk && b is ResultOk ==> (equal(a, b) <==> equal(*a->ResultOk_0, *b->ResultOk_0)),
        a is ResultErr && b is ResultErr ==> (equal(a, b) <==> equal(
            *a->ResultErr_0,
            *b->ResultErr_0,
        )),
        a is OptionSome && b is OptionSome ==> (equal(a, b) <==> equal(
            *a->OptionSome_0,
            *b->OptionSome_0,
        )),
        operated(a, BinaryOp::Equal, b) == Ok::<Val, Str>(Val::Bool(equal(a, b))),
        operated(a, BinaryOp::NotEqual, b) == Ok::<Val, Str>(Val::Bool(!equal(a, b))),
{
    if a is List && b is List && equal(a, b) && 0 <= i < a->List_0.len() {
        assert(equal(a->List_0[i], b->List_0[i]));
    }
    if a is Dict && b is Dict && equal(a, b) && 0 <= i < a->Dict_0.len() {
        assert(a->Dict_0[i].0 == b->Dict_0[i].0);
    }
}

// ---------------------------------------------------------------------------
// Ranges and powers
// ---------------------------------------------------------------------------

/// A range counts up by one from its start and ends before its end; one that counts down is empty,
/// and one of more than 100000 numbers is refused.
pub proof fn law_ranges_count_up(start: i64, end: i64, i: int)
    ensures
        end - start > 100_000 <==> range_values(start, end) is Err,
        end <= start ==> range_values(start, end) == Ok::<Seq<Val>, Str>(Seq::empty()),
        start < end <= start + 100_000 ==> {
            &&& range_values(start, end)->Ok_0.len() == end - start
            &&& range_values(start, end)->Ok_0[0] == Val::Number(start)
            &&& 0 <= i < end - start ==> range_values(start, end)->Ok_0[i] == Val::Number(
                (start + i) as i64,
            )
        },
{
    if end <= start {
        assert(range_values(start, end)->Ok_0 =~= Seq::<Val>::empty());
    }
}

/// A power is the product of so many factors, and fails where it has no place in 64 bits.
pub proof fn law_powers_are_products(base: i64, exponent: i64, z: i64)
    requires
        0 <= exponent <= 1_000_000,
    ensures
        power(base, exponent) == Ok::<Val, Str>(Val::Number(z)) <==> z == pow(
            base as int,
            exponent as nat,
        ),
        exponent == 0 ==> power(base, exponent) == Ok::<Val, Str>(Val::Number(1)),
        exponent == 1 ==> power(base, exponent) == Ok::<Val, Str>(Val::Number(base)),
        exponent == 2 && -0x8000_0000_0000_0000 <= base * base <= 0x7fff_ffff_ffff_ffff ==> power(
            base,
            exponent,
        ) == Ok::<Val, Str>(Val::Number((base * base) as i64)),
{
    vstd::arithmetic::power::lemma_pow0(base as int);
    vstd::arithmetic::power::lemma_pow1(base as int);
    if exponent == 2 {
        reveal_with_fuel(pow, 3);
    }
}

// ---------------------------------------------------------------------------
// Indexes and members
// ---------------------------------------------------------------------------

/// An index counts from zero: inside a list it gives the item there, and behind the end or before
/// the start it is an error.
pub proof fn law_indexes_count_from_zero(items: Seq<Val>, n: i64)
    ensures
        0 <= n < items.len() ==> item_of(Val::List(items), Val::Number(n)) == Ok::<Val, Str>(
            items[n as int],
        ),
        n < 0 || n >= items.len() ==> item_of(Val::List(items), Val::Number(n)) is Err,
{
}

/// A map gives back what was put under a key, and an error for a key that it does not hold; both
/// by index and by member.
pub proof fn law_maps_give_back_what_was_put(
    rows: Rows<Val>,
    key: Str,
    value: Val,
    vars: Rows<Val>,
    funcs: Rows<Fun>,
    w: World,
)
    ensures
        item_of(Val::Dict(put(rows, key, value)), Val::Text(key)) == Ok::<Val, Str>(value),
        member_of(Val::Dict(put(rows, key, value)), key, vars, funcs, w) == Ok::<Val, Str>(value),
        (forall|i: int| 0 <= i < rows.len() ==> (#[trigger] rows[i]).0 != key) ==> item_of(
            Val::Dict(rows),
            Val::Text(key),
        ) is Err && member_of(Val::Dict(rows), key, vars, funcs, w) is Err,
{
    lemma_get_put_same(rows, key, value);
    lemma_get_found(rows, key);
}

/// Only lists by a number and maps by a text can be indexed, and only objects and maps have
/// members.
pub proof fn law_other_values_have_no_items(
    target: Val,
    index: Val,
    member: Str,
    vars: Rows<Val>,
    funcs: Rows<Fun>,
    w: World,
)
    ensures
        !(target is List && index is Number) && !(target is Dict && index is Text) ==> item_of(
            target,
            index,
        ) is Err,
        !(target is Object) && !(target is Dict) ==> member_of(target, member, vars, funcs, w) is Err,
{
}

// ---------------------------------------------------------------------------
// Expressions
// ---------------------------------------------------------------------------

/// A literal stands for its value, and a name for the variable, or else for the function, that it
/// names.
pub proof fn law_literals_and_names(
    b: bool,
    n: i64,
    s: Str,
    name: Str,
    value: Val,
    vars: Rows<Val>,
    funcs: Rows<Fun>,
)
    ensures
        literal(LiteralM::Nil) is Nil,
        literal(LiteralM::Bool(b)) == Val::Bool(b),
        literal(LiteralM::Number(n)) == Val::Number(n),
        literal(LiteralM::Text(s)) == Val::Text(s),
        named(name, put(vars, name, value), funcs) == Ok::<Val, Str>(value),
        get(vars, name) is None && get(funcs, name) is Some ==> named(name, vars, funcs) == Ok::<
            Val,
            Str,
        >(Val::Callable(get(funcs, name)->0)),
        get(vars, name) is None && get(funcs, name) is None ==> named(name, vars, funcs) is Err,
{
    lemma_get_put_same(vars, name, value);
}

/// An operator is applied to the value of its left side and the value of its right side, in this
/// order, and the right side is evaluated after the left one.
pub proof fn law_operands_keep_their_sides(
    left: ExprM,
    op: BinaryOp,
    right: ExprM,
    vars: Rows<Val>,
    funcs: Rows<Fun>,
    w: World,
    fuel: nat,
    x: i64,
    y: i64,
)
    requires
        eval(left, vars, funcs, w, fuel).0 == Ok::<Val, Str>(Val::Number(x)),
        eval(
            right,
            vars,
            funcs,
            hold_values(eval(left, vars, funcs, w, fuel).1, seq![Val::Number(x)]),
            fuel,
        ).0 == Ok::<Val, Str>(Val::Number(y)),
    ensures
        ({
            let out = eval_binary(left, op, right, vars, funcs, w, fuel).0;
            &&& out is Ok && op == BinaryOp::Subtract ==> out->Ok_0 is Number
                && out->Ok_0->Number_0 == x - y
            &&& out is Ok && op == BinaryOp::Add ==> out->Ok_0 is Number && out->Ok_0->Number_0 == x
                + y
            &&& out is Ok && op == BinaryOp::Less ==> out->Ok_0 == Val::Bool(x < y)
            &&& out is Ok && op == BinaryOp::Greater ==> out->Ok_0 == Val::Bool(x > y)
            &&& out is Ok && op == BinaryOp::Equal ==> out->Ok_0 == Val::Bool(x == y)
            &&& out is Ok ==> out == on_numbers(x, op, y)
            &&& on_numbers(x, op, y) is Err ==> out is Err
        }),
{
}

/// Where the left side of `and` is false, or that of `or` true, the right side is not evaluated:
/// the result is the left side, and nothing has happened but its evaluation.
pub proof fn law_logic_stops_early(
    left: ExprM,
    right: ExprM,
    vars: Rows<Val>,
    funcs: Rows<Fun>,
    w: World,
    fuel: nat,
)
    ensures
        ({
            let (r, w1) = eval(left, vars, funcs, w, fuel);
            &&& r == Ok::<Val, Str>(Val::Bool(false)) ==> eval_binary(
                left,
                BinaryOp::And,
                right,
                vars,
                funcs,
                w,
                fuel,
            ) == charged(Val::Bool(false), w1)
            &&& r == Ok::<Val, Str>(Val::Bool(true)) ==> eval_binary(
                left,
                BinaryOp::Or,
                right,
                vars,
                funcs,
                w,
                fuel,
            ) == charged(Val::Bool(true), w1)
            &&& r is Err ==> eval_binary(left, BinaryOp::And, right, vars, funcs, w, fuel).0 == r
        }),
{
}

/// Where the left side does not decide, `and` and `or` give what the right side says.
pub proof fn law_logic_goes_on(
    left: ExprM,
    op: BinaryOp,
    right: ExprM,
    vars: Rows<Val>,
    funcs: Rows<Fun>,
    w: World,
    fuel: nat,
    b: bool,
)
    requires
        op == BinaryOp::And || op == BinaryOp::Or,
        eval(left, vars, funcs, w, fuel).0 == Ok::<Val, Str>(Val::Bool(op == BinaryOp::And)),
        eval(
            right,
            vars,
            funcs,
            hold_values(
                eval(left, vars, funcs, w, fuel).1,
                seq![Val::Bool(op == BinaryOp::And)],
            ),
            fuel,
        ).0 == Ok::<Val, Str>(Val::Bool(b)),
    ensures
        eval_binary(left, op, right, vars, funcs, w, fuel).0 matches Ok(v) ==> v == Val::Bool(b),
{
}

/// A conditional expression has the value of the one branch that its condition chooses; the other
/// one is not evaluated.
pub proof fn law_conditionals_choose(
    condition: ExprM,
    yes: ExprM,
    no: ExprM,
    vars: Rows<Val>,
    funcs: Rows<Fun>,
    w: World,
    fuel: nat,
)
    ensures
        ({
            let e = ExprM::Conditional {
                condition: Box::new(condition),
                then_branch: Box::new(yes),
                else_branch: Box::new(no),
            };
            let (r, w1) = eval(condition, vars, funcs, w, fuel);
            &&& r == Ok::<Val, Str>(Val::Bool(true)) ==> eval_inner(e, vars, funcs, w, fuel) == eval(
                yes,
                vars,
                funcs,
                w1,
                fuel,
            )
            &&& r == Ok::<Val, Str>(Val::Bool(false)) ==> eval_inner(e, vars, funcs, w, fuel)
                == eval(no, vars, funcs, w1, fuel)
            &&& r is Err ==> eval_inner(e, vars, funcs, w, fuel).0 == r
        }),
{
}

/// An indexed expression gives the item of the one value under the other, and a member the member.
pub proof fn law_index_expressions(
    target: ExprM,
    index: ExprM,
    vars: Rows<Val>,
    funcs: Rows<Fun>,
    w: World,
    fuel: nat,
    items: Seq<Val>,
    n: i64,
)
    requires
        eval(target, vars, funcs, w, fuel).0 == Ok::<Val, Str>(Val::List(items)),
        eval(
            index,
            vars,
            funcs,
            hold_values(eval(target, vars, funcs, w, fuel).1, seq![Val::List(items)]),
            fuel,
        ).0 == Ok::<Val, Str>(Val::Number(n)),
    ensures
        ({
            let e = ExprM::Index { target: Box::new(target), index: Box::new(index) };
            let out = eval_inner(e, vars, funcs, w, fuel).0;
            &&& out is Ok ==> 0 <= n < items.len() && out->Ok_0 == items[n as int]
            &&& !(0 <= n < items.len()) ==> out is Err
        }),
{
}

/// A value at the place of a statement with a question mark behind it: a success and an option
/// that holds something give what they hold, an error and an empty option leave the function as
/// they are, and any other value is an error.
pub proof fn law_question_marks(v: Val)
    ensures
        v is ResultOk ==> outcome(v) == Ok::<OutcomeM, Str>(OutcomeM::Value(*v->ResultOk_0)),
        v is OptionSome ==> outcome(v) == Ok::<OutcomeM, Str>(OutcomeM::Value(*v->OptionSome_0)),
        v is ResultErr || v is OptionNone ==> outcome(v) == Ok::<OutcomeM, Str>(
            OutcomeM::Propagate(v),
        ),
        !(v is ResultOk || v is OptionSome || v is ResultErr || v is OptionNone) ==> outcome(
            v,
        ) is Err,
{
}

/// Without a question mark a value is taken as it is.
pub proof fn law_plain_values_are_taken_as_they_are(
    e: ExprM,
    vars: Rows<Val>,
    funcs: Rows<Fun>,
    w: World,
    fuel: nat,
)
    ensures
        !(e is Propagate) && eval(e, vars, funcs, w, fuel).0 is Ok ==> propagated(
            e,
            vars,
            funcs,
            w,
            fuel,
        ).0 == Ok::<OutcomeM, Str>(OutcomeM::Value(eval(e, vars, funcs, w, fuel).0->Ok_0)),
        propagated(ExprM::Propagate(Box::new(e)), vars, funcs, w, fuel).0 == (match eval(
            e,
            vars,
            funcs,
            w,
            fuel,
        ).0 {
            Ok(v) => outcome(v),
            Err(error) => Err(error),
        }),
        propagated(e, vars, funcs, w, fuel).0 is Ok ==> !(eval_inner(
            ExprM::Propagate(Box::new(e)),
            vars,
            funcs,
            w,
            fuel,
        ).0 is Ok),
{
}

/// Waiting for a value that is ready gives the value; waiting for what is no future is an error.
pub proof fn law_waiting(v: Val, w: World)
    ensures
        v is Future ==> awaited(v, w) == (Ok::<Val, Str>(*v->Future_0), w),
        v is ScheduledFuture ==> awaited(v, w) == joined(w, v->ScheduledFuture_0, None),
        !(v is Future) && !(v is ScheduledFuture) ==> awaited(v, w).0 is Err && awaited(v, w).1 == w,
{
}

} // verus!
