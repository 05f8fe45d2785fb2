//! What annotations mean: which values have a type, and that a value of another type is refused.

use crate::annotations::{annotation_of, checked, fits, infer, items_fit, rows_fit};
use crate::ast::ParamM;
use crate::semantics::{argument_checked, result_checked};
use crate::shapes::{arguments, divided, lemma_divided, lemma_ends, lemma_names_differ, lemma_shape,
    lemma_trim_again, lemma_trim_same, lemma_words, proper, shape_of, text_of, texts_of, Shape};
use crate::table::{get, Rows};
use crate::text::{trim, Str};
use crate::value::{kind_name, Val};
use vstd::prelude::*;

verus! {

/// Whether a value is of the type with a name, by what the value is made of.
pub open spec fn is_a(v: Val, name: Str) -> bool {
    ||| name == "any"@
    ||| name == "none"@ && v is Nil
    ||| name == "bool"@ && v is Bool
    ||| name == "number"@ && v is Number
    ||| name == "text"@ && v is Text
    ||| name == "list"@ && v is List
    ||| name == "map"@ && v is Dict
    ||| name == "object"@ && v is Object
    ||| name == "result"@ && (v is ResultOk || v is ResultErr)
    ||| name == "option"@ && (v is OptionSome || v is OptionNone)
    ||| name == "function"@ && v is Callable
}

/// Whether a value has a type: every item of a list, every value of a map, and what a result or
/// an option holds has the type inside.
pub open spec fn has_type(v: Val, shape: Shape) -> bool
    decreases v,
{
    match shape {
        Shape::Word(name) => is_a(v, name),
        Shape::MapOf(inner) => match v {
            Val::Dict(rows) => forall|i: int|
                0 <= i < rows.len() ==> has_type((#[trigger] rows[i]).1, *inner),
            _ => false,
        },
        Shape::Of(base, inner) => if base == "list"@ {
            match v {
                Val::List(items) => forall|i: int|
                    0 <= i < items.len() ==> has_type(#[trigger] items[i], *inner),
                _ => false,
            }
        } else if base == "result"@ {
            match v {
                Val::ResultOk(item) => has_type(*item, *inner),
                Val::ResultErr(item) => has_type(*item, *inner),
                _ => false,
            }
        } else {
            match v {
                Val::OptionSome(item) => has_type(*item, *inner),
                Val::OptionNone => true,
                _ => false,
            }
        },
    }
}

/// Whether a type is made of the names of the language alone.
pub open spec fn familiar(shape: Shape) -> bool
    decreases shape,
{
    match shape {
        Shape::Word(_) => true,
        Shape::MapOf(inner) => familiar(*inner),
        Shape::Of(base, inner) => (base == "list"@ || base == "result"@ || base == "option"@)
            && familiar(*inner),
    }
}

/// The names of the kinds of values are all different.
pub proof fn lemma_kinds_differ()
    ensures
        "none"@ != "bool"@,
        "none"@ != "number"@,
        "none"@ != "text"@,
        "none"@ != "list"@,
        "none"@ != "map"@,
        "none"@ != "object"@,
        "none"@ != "result"@,
        "none"@ != "option"@,
        "none"@ != "function"@,
        "none"@ != "future"@,
        "bool"@ != "number"@,
        "bool"@ != "text"@,
        "bool"@ != "list"@,
        "bool"@ != "map"@,
        "bool"@ != "object"@,
        "bool"@ != "result"@,
        "bool"@ != "option"@,
        "bool"@ != "function"@,
        "bool"@ != "future"@,
        "number"@ != "text"@,
        "number"@ != "list"@,
        "number"@ != "map"@,
        "number"@ != "object"@,
        "number"@ != "result"@,
        "number"@ != "option"@,
        "number"@ != "function"@,
        "number"@ != "future"@,
        "text"@ != "list"@,
        "text"@ != "map"@,
        "text"@ != "object"@,
        "text"@ != "result"@,
        "text"@ != "option"@,
        "text"@ != "function"@,
        "text"@ != "future"@,
        "list"@ != "map"@,
        "list"@ != "object"@,
        "list"@ != "result"@,
        "list"@ != "option"@,
        "list"@ != "function"@,
        "list"@ != "future"@,
        "map"@ != "object"@,
        "map"@ != "result"@,
        "map"@ != "option"@,
        "map"@ != "function"@,
        "map"@ != "future"@,
        "object"@ != "result"@,
        "object"@ != "option"@,
        "object"@ != "function"@,
        "object"@ != "future"@,
        "result"@ != "option"@,
        "result"@ != "function"@,
        "result"@ != "future"@,
        "option"@ != "function"@,
        "option"@ != "future"@,
        "function"@ != "future"@,
{
    reveal_strlit("none");
    reveal_strlit("bool");
    reveal_strlit("number");
    reveal_strlit("text");
    reveal_strlit("list");
    reveal_strlit("map");
    reveal_strlit("object");
    reveal_strlit("result");
    reveal_strlit("option");
    reveal_strlit("function");
    reveal_strlit("future");
    assert("none"@.len() == 4 && "number"@.len() == 6 && "function"@.len() == 8);
    assert("future"@.len() == 6);
    assert("none"@[0] == 'n');
    assert("bool"@[0] == 'b');
    assert("number"@[0] == 'n');
    assert("text"@[0] == 't');
    assert("list"@[0] == 'l');
    assert("map"@[0] == 'm');
    assert("object"@[0] == 'o' && "object"@[1] == 'b');
    assert("result"@[0] == 'r');
    assert("option"@[0] == 'o' && "option"@[1] == 'p');
    assert("future"@[0] == 'f');
}

/// The name of a value's type is that of what the value is made of, and of nothing else.
pub proof fn law_kinds_are_what_values_are(v: Val, name: Str)
    requires
        name != "any"@,
        !(v is Future) && !(v is ScheduledFuture),
    ensures
        kind_name(v) == name <==> is_a(v, name),
{
    lemma_kinds_differ();
}

proof fn lemma_typed_items(items: Seq<Val>, i: nat, shape: Shape)
    requires
        proper(shape),
        familiar(shape),
        i <= items.len(),
    ensures
        items_fit(text_of(shape), items, i) == Ok::<bool, Str>(
            forall|k: int| i <= k < items.len() ==> has_type(#[trigger] items[k], shape),
        ),
    decreases items, items.len() - i,
{
    if i < items.len() {
        lemma_typed(items[i as int], shape);
        lemma_typed_items(items, i + 1, shape);
        if has_type(items[i as int], shape) {
            assert forall|k: int|
                (forall|j: int| i + 1 <= j < items.len() ==> has_type(#[trigger] items[j], shape))
                    && i <= k < items.len() implies has_type(#[trigger] items[k], shape) by {
                if k > i {
                    assert(i + 1 <= k);
                }
            }
        }
    }
}

proof fn lemma_typed_rows(rows: Rows<Val>, i: nat, shape: Shape)
    requires
        proper(shape),
        familiar(shape),
        i <= rows.len(),
    ensures
        rows_fit(text_of(shape), rows, i) == Ok::<bool, Str>(
            forall|k: int| i <= k < rows.len() ==> has_type((#[trigger] rows[k]).1, shape),
        ),
    decreases rows, rows.len() - i,
{
    if i < rows.len() {
        lemma_typed(rows[i as int].1, shape);
        lemma_typed_rows(rows, i + 1, shape);
        if has_type(rows[i as int].1, shape) {
            assert forall|k: int|
                (forall|j: int| i + 1 <= j < rows.len() ==> has_type((#[trigger] rows[j]).1, shape))
                    && i <= k < rows.len() implies has_type((#[trigger] rows[k]).1, shape) by {
                if k > i {
                    assert(i + 1 <= k);
                }
            }
        }
    }
}

proof fn lemma_typed(v: Val, shape: Shape)
    requires
        proper(shape),
        familiar(shape),
    ensures
        fits(text_of(shape), v) == Ok::<bool, Str>(has_type(v, shape)),
    decreases v, 0nat,
{
    lemma_words();
    lemma_names_differ();
    lemma_kinds_differ();
    lemma_ends(shape);
    lemma_divided(shape);
    match shape {
        Shape::Word(name) => {
            assert(text_of(shape) == name);
        },
        Shape::MapOf(inner) => {
            lemma_trim_same("text"@);
            let both = texts_of(arguments(shape));
            assert(both[0] == text_of(Shape::Word("text"@)));
            assert(both[1] == text_of(*inner));
            if let Val::Dict(rows) = v {
                lemma_typed_rows(rows, 0, *inner);
            }
        },
        Shape::Of(base, inner) => {
            let one = texts_of(arguments(shape));
            assert(one[0] == text_of(*inner));
            match v {
                Val::List(items) => {
                    lemma_typed_items(items, 0, *inner);
                },
                Val::ResultOk(item) => {
                    lemma_typed(*item, *inner);
                },
                Val::ResultErr(item) => {
                    lemma_typed(*item, *inner);
                },
                Val::OptionSome(item) => {
                    lemma_typed(*item, *inner);
                },
                _ => {},
            }
        },
    }
}

/// A value fits an annotation exactly where it has the annotated type: a list where every one of
/// its items has the type inside, a map where every value has, a result or an option where what
/// it holds has. Every other value is refused.
pub proof fn law_annotations_accept_their_type_alone(v: Val, shape: Shape)
    requires
        proper(shape),
        familiar(shape),
    ensures
        fits(text_of(shape), v) == Ok::<bool, Str>(has_type(v, shape)),
{
    lemma_typed(v, shape);
}

/// A list has a list type exactly where each of its items has the type inside; what is no list
/// never has one.
pub proof fn law_list_annotations_test_every_item(v: Val, inner: Shape)
    requires
        proper(inner),
        familiar(inner),
    ensures
        fits("list<"@ + text_of(inner) + ">"@, v) == Ok::<bool, Str>(true) <==> (v is List
            && forall|k: int|
            0 <= k < v->List_0.len() ==> fits(text_of(inner), #[trigger] v->List_0[k]) == Ok::<
                bool,
                Str,
            >(true)),
{
    let shape = Shape::Of("list"@, Box::new(inner));
    lemma_words();
    lemma_typed(v, shape);
    reveal_strlit("list<");
    reveal_strlit("list");
    reveal_strlit("<");
    assert("list<"@ =~= "list"@ + "<"@);
    if let Val::List(items) = v {
        assert forall|k: int| 0 <= k < items.len() implies (fits(
            text_of(inner),
            #[trigger] items[k],
        ) == Ok::<bool, Str>(true)) == has_type(items[k], inner) by {
            lemma_typed(items[k], inner);
        }
    }
}

/// A value may be bound to an annotated name exactly where it has the type. Otherwise the message
/// names both the type and what was given.
pub proof fn law_declarations_are_checked(name: Str, v: Val, shape: Shape)
    requires
        proper(shape),
        familiar(shape),
    ensures
        checked(name, text_of(shape), v) is Ok <==> has_type(v, shape),
        !has_type(v, shape) ==> checked(name, text_of(shape), v) == Err::<(), Str>(
            "type mismatch for "@ + name + ": expected "@ + text_of(shape) + ", got "@ + kind_name(v),
        ),
{
    lemma_words();
    lemma_ends(shape);
    lemma_divided(shape);
    lemma_typed(v, shape);
    if text_of(shape) == "any"@ {
        assert(shape is Word);
    }
}

/// Blanks around an annotation do not matter.
pub proof fn law_annotations_ignore_blanks_around_them(annotation: Str, v: Val)
    ensures
        fits(annotation, v) == fits(trim(annotation), v),
{
    lemma_trim_again(annotation);
}

/// An annotation with brackets around a name that is no type of the language is an error for
/// every value.
pub proof fn law_unknown_generic_types_are_errors(v: Val, base: Str, inner: Shape)
    requires
        proper(Shape::Of(base, Box::new(inner))),
        base != "list"@ && base != "map"@ && base != "result"@ && base != "option"@,
    ensures
        fits(base + "<"@ + text_of(inner) + ">"@, v) is Err,
{
    let shape = Shape::Of(base, Box::new(inner));
    lemma_words();
    lemma_names_differ();
    lemma_ends(shape);
    lemma_divided(shape);
}

/// A parameter of an ordinary function takes exactly the values of its type, and without an
/// annotation every value.
pub proof fn law_arguments_are_checked(param: ParamM, v: Val, bindings: Rows<Str>, shape: Shape)
    requires
        proper(shape),
        familiar(shape),
    ensures
        param.annotation is None ==> argument_checked(param, v, Seq::empty(), bindings) == Ok::<
            Rows<Str>,
            Str,
        >(bindings),
        param.annotation == Some(text_of(shape)) ==> (argument_checked(
            param,
            v,
            Seq::empty(),
            bindings,
        ) is Ok <==> has_type(v, shape)),
{
    law_declarations_are_checked(param.name, v, shape);
}

/// A function with an annotated result returns values of that type alone.
pub proof fn law_results_are_checked(v: Val, shape: Shape, bindings: Rows<Str>)
    requires
        proper(shape),
        familiar(shape),
    ensures
        result_checked(None, Seq::empty(), bindings, v) is Ok,
        result_checked(Some(text_of(shape)), Seq::empty(), bindings, v) is Ok <==> has_type(
            v,
            shape,
        ),
{
    law_declarations_are_checked("return"@, v, shape);
}

/// A type parameter that is bound stands for one type: an argument of another type is refused.
/// One that is not bound yet is bound to the type of the argument.
pub proof fn law_type_parameters_stand_for_one_type(
    param: ParamM,
    v: Val,
    type_params: Seq<Str>,
    bindings: Rows<Str>,
    name: Str,
)
    requires
        param.annotation == Some(name),
        trim(name) == name,
        type_params.contains(name),
    ensures
        get(bindings, name) is Some && argument_checked(param, v, type_params, bindings) is Ok
            ==> get(bindings, name) == Some(annotation_of(v, 0)),
        get(bindings, name) is None ==> infer(name, annotation_of(v, 0), type_params, bindings, 0)
            == (true, crate::table::put(bindings, name, annotation_of(v, 0))),
{
    lemma_shape(v, 0);
    lemma_ends(shape_of(v, 0));
}

/// The computed types of plain values are the names of their kinds, and those of lists, maps,
/// results and options say which of them they are; no value is of type `any`.
pub proof fn law_computed_types_tell_kinds_apart(v: Val)
    ensures
        annotation_of(v, 0) != "any"@,
        !(v is List || v is Dict || v is ResultOk || v is ResultErr || v is OptionSome
            || v is OptionNone) ==> annotation_of(v, 0) == kind_name(v),
        v is List || v is Dict || v is ResultOk || v is ResultErr || v is OptionSome
            || v is OptionNone ==> divided(annotation_of(v, 0)) is Some && (divided(
            annotation_of(v, 0),
        )->0).0 == kind_name(v),
        v is List && v->List_0.len() > 0 && (forall|i: int|
            0 <= i < v->List_0.len() ==> kind_name(#[trigger] v->List_0[i]) == "number"@)
            ==> annotation_of(v, 0) == "list<number>"@,
{
    lemma_words();
    lemma_names_differ();
    lemma_kinds_differ();
    lemma_shape(v, 0);
    lemma_divided(shape_of(v, 0));
    reveal_strlit("any");
    reveal_strlit("function");
    reveal_strlit("none");
    reveal_strlit("bool");
    reveal_strlit("number");
    reveal_strlit("text");
    reveal_strlit("object");
    reveal_strlit("future");
    reveal_strlit("list<");
    reveal_strlit(">");
    reveal_strlit("list<number>");
    if let Val::List(items) = v {
        if items.len() > 0 && (forall|i: int|
            0 <= i < items.len() ==> kind_name(#[trigger] items[i]) == "number"@) {
            assert forall|i: int| 0 <= i < items.len() implies annotation_of(#[trigger] items[i], 1)
                == "number"@ by {
                assert(kind_name(items[i]) == "number"@);
            }
            assert("list<"@ + "number"@ + ">"@ =~= "list<number>"@);
        }
    }
}

} // verus!
