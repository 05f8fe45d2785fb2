//! The types that are computed for values: they fit the values, and inferred bindings lead to them.

use crate::annotations::{annotation_of, args_from, depth_left, fits, generic_args, generic_parts,
    infer, infer_all, items_fit, rows_fit, substituted, substituted_all, MAX_ANNOTATION_DEPTH};
use crate::roundtrip::lemma_join_front;
use crate::table::{get, lemma_get_put_other, lemma_get_put_same, lemma_put_ordered, ordered, put,
    Rows};
use crate::text::{find_from, includes, is_space, join, last_end, lemma_find_from,
    lemma_skip_spaces, skip_spaces, stands_at, trim, trim_start, Str};
use crate::value::{kind_name, Val};
use vstd::prelude::*;

verus! {

/// The shape of a computed type: a name, a name with one argument, or a map from texts.
pub enum Shape {
    Word(Str),
    Of(Str, Box<Shape>),
    MapOf(Box<Shape>),
}

pub open spec fn letter(c: char) -> bool {
    'a' <= c <= 'z'
}

pub open spec fn is_word(s: Str) -> bool {
    s.len() > 0 && forall|i: int| 0 <= i < s.len() ==> letter(#[trigger] s[i])
}

pub open spec fn proper(shape: Shape) -> bool
    decreases shape,
{
    match shape {
        Shape::Word(s) => is_word(s),
        Shape::Of(base, inner) => is_word(base) && proper(*inner),
        Shape::MapOf(inner) => proper(*inner),
    }
}

pub open spec fn text_of(shape: Shape) -> Str
    decreases shape,
{
    match shape {
        Shape::Word(s) => s,
        Shape::Of(base, inner) => base + "<"@ + text_of(*inner) + ">"@,
        Shape::MapOf(inner) => "map<text,"@ + text_of(*inner) + ">"@,
    }
}

pub open spec fn height(shape: Shape) -> nat
    decreases shape,
{
    match shape {
        Shape::Word(_) => 0,
        Shape::Of(_, inner) => height(*inner) + 1,
        Shape::MapOf(inner) => height(*inner) + 1,
    }
}

/// The shape of the type that is computed for a value.
pub open spec fn shape_of(v: Val, depth: nat) -> Shape
    decreases v,
{
    if depth > MAX_ANNOTATION_DEPTH {
        Shape::Word("any"@)
    } else {
        match v {
            Val::List(items) => Shape::Of(
                "list"@,
                Box::new(
                    if items.len() > 0 && (forall|i: int|
                        1 <= i < items.len() ==> annotation_of(#[trigger] items[i], depth + 1)
                            == annotation_of(items[0], depth + 1)) {
                        shape_of(items[0], depth + 1)
                    } else {
                        Shape::Word("any"@)
                    },
                ),
            ),
            Val::Dict(rows) => Shape::MapOf(
                Box::new(
                    if rows.len() > 0 && (forall|i: int|
                        1 <= i < rows.len() ==> annotation_of((#[trigger] rows[i]).1, depth + 1)
                            == annotation_of(rows[0].1, depth + 1)) {
                        shape_of(rows[0].1, depth + 1)
                    } else {
                        Shape::Word("any"@)
                    },
                ),
            ),
            Val::ResultOk(item) => Shape::Of("result"@, Box::new(shape_of(*item, depth + 1))),
            Val::ResultErr(item) => Shape::Of("result"@, Box::new(shape_of(*item, depth + 1))),
            Val::OptionSome(item) => Shape::Of("option"@, Box::new(shape_of(*item, depth + 1))),
            Val::OptionNone => Shape::Of("option"@, Box::new(Shape::Word("any"@))),
            _ => Shape::Word(kind_name(v)),
        }
    }
}

pub proof fn lemma_words()
    ensures
        is_word("any"@),
        is_word("none"@),
        is_word("bool"@),
        is_word("number"@),
        is_word("text"@),
        is_word("object"@),
        is_word("function"@),
        is_word("future"@),
        is_word("list"@),
        is_word("map"@),
        is_word("result"@),
        is_word("option"@),
{
    reveal_strlit("any");
    reveal_strlit("none");
    reveal_strlit("bool");
    reveal_strlit("number");
    reveal_strlit("text");
    reveal_strlit("object");
    reveal_strlit("function");
    reveal_strlit("future");
    reveal_strlit("list");
    reveal_strlit("map");
    reveal_strlit("result");
    reveal_strlit("option");
}

/// The names of the types differ where it matters.
pub proof fn lemma_names_differ()
    ensures
        "map"@ != "list"@,
        "result"@ != "list"@,
        "result"@ != "map"@,
        "option"@ != "list"@,
        "option"@ != "map"@,
        "option"@ != "result"@,
        "any"@.len() == 3,
{
    reveal_strlit("any");
    reveal_strlit("list");
    reveal_strlit("map");
    reveal_strlit("result");
    reveal_strlit("option");
    assert("result"@[0] == 'r');
    assert("option"@[0] == 'o');
    assert("list"@[0] == 'l');
    assert("map"@[0] == 'm');
}

pub proof fn lemma_shape(v: Val, depth: nat)
    ensures
        proper(shape_of(v, depth)),
        text_of(shape_of(v, depth)) == annotation_of(v, depth),
    decreases v,
{
    lemma_words();
    reveal_with_fuel(proper, 2);
    reveal_with_fuel(text_of, 2);
    reveal_with_fuel(annotation_of, 2);
    reveal_strlit("list<");
    reveal_strlit("map<text,");
    reveal_strlit("result<");
    reveal_strlit("option<");
    reveal_strlit("list<any>");
    reveal_strlit("map<text,any>");
    reveal_strlit("option<any>");
    reveal_strlit("list");
    reveal_strlit("result");
    reveal_strlit("option");
    reveal_strlit("any");
    reveal_strlit("<");
    reveal_strlit(">");
    assert("list<"@ =~= "list"@ + "<"@);
    assert("result<"@ =~= "result"@ + "<"@);
    assert("option<"@ =~= "option"@ + "<"@);
    assert("list<any>"@ =~= "list"@ + "<"@ + "any"@ + ">"@);
    assert("map<text,any>"@ =~= "map<text,"@ + "any"@ + ">"@);
    assert("option<any>"@ =~= "option"@ + "<"@ + "any"@ + ">"@);
    if depth <= MAX_ANNOTATION_DEPTH {
        match v {
            Val::List(items) => {
                if items.len() > 0 {
                    lemma_shape(items[0], depth + 1);
                }
            },
            Val::Dict(rows) => {
                if rows.len() > 0 {
                    lemma_shape(rows[0].1, depth + 1);
                }
            },
            Val::ResultOk(item) => {
                lemma_shape(*item, depth + 1);
            },
            Val::ResultErr(item) => {
                lemma_shape(*item, depth + 1);
            },
            Val::OptionSome(item) => {
                lemma_shape(*item, depth + 1);
            },
            _ => {},
        }
    }
}

// ---------------------------------------------------------------------------
// Reading the text of a shape
// ---------------------------------------------------------------------------

pub proof fn lemma_trim_same(s: Str)
    requires
        s.len() > 0,
        !is_space(s[0]),
        !is_space(s.last()),
    ensures
        trim(s) == s,
{
    assert(skip_spaces(s, 0) == 0);
    assert(s.skip(0) =~= s);
    assert(last_end(s, s.len() as int) == s.len());
    assert(s.take(s.len() as int) =~= s);
}

/// The text of a shape begins with a letter, ends with a letter or a bracket, and is not empty.
pub proof fn lemma_ends(shape: Shape)
    requires
        proper(shape),
    ensures
        text_of(shape).len() > 0,
        letter(text_of(shape)[0]),
        letter(text_of(shape).last()) || text_of(shape).last() == '>',
        trim(text_of(shape)) == text_of(shape),
    decreases shape,
{
    reveal_strlit("<");
    reveal_strlit(">");
    reveal_strlit("map<text,");
    match shape {
        Shape::Word(s) => {},
        Shape::Of(base, inner) => {
            lemma_ends(*inner);
            assert(text_of(shape)[0] == base[0]);
        },
        Shape::MapOf(inner) => {
            lemma_ends(*inner);
            assert(text_of(shape)[0] == 'm');
        },
    }
    lemma_trim_same(text_of(shape));
}

/// A word is read over without an end of the argument.
proof fn lemma_scan_word(s: Str, start: int, i: int, end: int, depth: nat)
    requires
        0 <= i <= end <= s.len(),
        forall|j: int| i <= j < end ==> letter(#[trigger] s[j]),
    ensures
        args_from(s, start, i, depth) == args_from(s, start, end, depth),
    decreases end - i,
{
    if i < end {
        lemma_scan_word(s, start, i + 1, end, depth);
    }
}

/// The text of a shape is read over without an end of the argument.
proof fn lemma_scan(s: Str, start: int, i: int, depth: nat, shape: Shape)
    requires
        proper(shape),
        stands_at(s, text_of(shape), i),
    ensures
        args_from(s, start, i, depth) == args_from(s, start, i + text_of(shape).len(), depth),
    decreases shape,
{
    reveal_strlit("<");
    reveal_strlit(">");
    reveal_strlit("map<text,");
    let x = text_of(shape);
    let end = i + x.len();
    assert(forall|j: int| i <= j < end ==> #[trigger] s[j] == x[j - i]) by {
        assert forall|j: int| i <= j < end implies #[trigger] s[j] == x[j - i] by {
            assert(s.subrange(i, end)[j - i] == s[j]);
        }
    }
    match shape {
        Shape::Word(_) => {
            lemma_scan_word(s, start, i, end, depth);
        },
        Shape::Of(base, inner) => {
            let y = text_of(*inner);
            let open = i + base.len();
            assert(forall|j: int| i <= j < open ==> #[trigger] s[j] == base[j - i]);
            lemma_scan_word(s, start, i, open, depth);
            assert(s[open] == '<');
            assert(s.subrange(open + 1, open + 1 + y.len()) =~= y);
            lemma_scan(s, start, open + 1, depth + 1, *inner);
            assert(s[end - 1] == '>');
        },
        Shape::MapOf(inner) => {
            let y = text_of(*inner);
            assert(s[i] == 'm' && s[i + 1] == 'a' && s[i + 2] == 'p');
            lemma_scan_word(s, start, i, i + 3, depth);
            assert(s[i + 3] == '<');
            assert(s[i + 4] == 't' && s[i + 5] == 'e' && s[i + 6] == 'x' && s[i + 7] == 't');
            lemma_scan_word(s, start, i + 4, i + 8, depth + 1);
            assert(s[i + 8] == ',');
            assert(args_from(s, start, i + 8, depth + 1) == args_from(s, start, i + 9, depth + 1));
            assert(s.subrange(i + 9, i + 9 + y.len()) =~= y);
            lemma_scan(s, start, i + 9, depth + 1, *inner);
            assert(s[end - 1] == '>');
        },
    }
}

/// The arguments of a type with one argument.
proof fn lemma_one_argument(inner: Shape)
    requires
        proper(inner),
    ensures
        generic_args(text_of(inner)) == Ok::<Seq<Str>, Str>(seq![text_of(inner)]),
{
    let x = text_of(inner);
    lemma_ends(inner);
    assert(x.subrange(0, x.len() as int) =~= x);
    lemma_scan(x, 0, 0, 0, inner);
}

/// The arguments of a map.
proof fn lemma_two_arguments(inner: Shape)
    requires
        proper(inner),
    ensures
        generic_args("text,"@ + text_of(inner)) == Ok::<Seq<Str>, Str>(
            seq!["text"@, text_of(inner)],
        ),
{
    reveal_strlit("text,");
    reveal_strlit("text");
    let x = text_of(inner);
    let s = "text,"@ + x;
    lemma_ends(inner);
    assert(s[0] == 't' && s[1] == 'e' && s[2] == 'x' && s[3] == 't' && s[4] == ',');
    lemma_scan_word(s, 0, 0, 4, 0);
    assert(s.subrange(0, 4) =~= "text"@);
    lemma_trim_same("text"@);
    assert(s.subrange(5, 5 + x.len() as int) =~= x);
    lemma_scan(s, 5, 5, 0, inner);
    assert(s.subrange(5, s.len() as int) =~= x);
    assert(args_from(s, 5, 5, 0) == Ok::<Seq<Str>, Str>(seq![x]));
    assert(seq!["text"@] + seq![x] =~= seq!["text"@, x]);
}

proof fn lemma_find_open(a: Str, from: int, open: int)
    requires
        0 <= from <= open < a.len(),
        forall|j: int| from <= j < open ==> letter(#[trigger] a[j]),
        a[open] == '<',
    ensures
        find_from(a, "<"@, from) == Some(open),
    decreases open - from,
{
    reveal_strlit("<");
    if from < open {
        assert(a.subrange(from, from + 1)[0] == a[from]);
        lemma_find_open(a, from + 1, open);
    } else {
        assert(a.subrange(open, open + 1) =~= "<"@);
    }
}

proof fn lemma_no_open(a: Str, from: int)
    requires
        0 <= from <= a.len(),
        forall|j: int| from <= j < a.len() ==> letter(#[trigger] a[j]),
    ensures
        find_from(a, "<"@, from) is None,
    decreases a.len() - from,
{
    reveal_strlit("<");
    if from < a.len() {
        assert(a.subrange(from, from + 1)[0] == a[from]);
        lemma_no_open(a, from + 1);
    }
}

/// The base and the arguments that the text of a shape is divided into.
pub open spec fn base_of(shape: Shape) -> Str {
    match shape {
        Shape::Word(s) => s,
        Shape::Of(base, _) => base,
        Shape::MapOf(_) => "map"@,
    }
}

pub open spec fn arguments(shape: Shape) -> Seq<Shape> {
    match shape {
        Shape::Word(_) => Seq::empty(),
        Shape::Of(_, inner) => seq![*inner],
        Shape::MapOf(inner) => seq![Shape::Word("text"@), *inner],
    }
}

/// The base and the arguments of an annotation that has arguments.
pub open spec fn divided(annotation: Str) -> Option<(Str, Result<Seq<Str>, Str>)> {
    match generic_parts(annotation) {
        Some(parts) => Some((trim(parts.0), generic_args(parts.1))),
        None => None,
    }
}

pub open spec fn texts_of(shapes: Seq<Shape>) -> Seq<Str> {
    Seq::new(shapes.len(), |i: int| text_of(shapes[i]))
}

pub proof fn lemma_divided(shape: Shape)
    requires
        proper(shape),
    ensures
        shape is Word ==> generic_parts(text_of(shape)) is None,
        !(shape is Word) ==> {
            &&& text_of(shape) != "any"@
            &&& divided(text_of(shape)) == Some(
                (base_of(shape), Ok::<Seq<Str>, Str>(texts_of(arguments(shape)))),
            )
            &&& text_of(shape) == base_of(shape) + "<"@ + join(texts_of(arguments(shape)), ","@)
                + ">"@
        },
        forall|i: int|
            0 <= i < arguments(shape).len() ==> proper(#[trigger] arguments(shape)[i]) && height(
                arguments(shape)[i],
            ) < height(shape),
{
    lemma_words();
    reveal_strlit("<");
    reveal_strlit(">");
    reveal_strlit(",");
    reveal_strlit("text");
    reveal_strlit("text,");
    reveal_strlit("map");
    reveal_strlit("map<text,");
    let a = text_of(shape);
    match shape {
        Shape::Word(_) => {
            lemma_no_open(a, 0);
        },
        Shape::Of(base, inner) => {
            let x = text_of(*inner);
            assert(forall|j: int| 0 <= j < base.len() ==> #[trigger] a[j] == base[j]);
            lemma_find_open(a, 0, base.len() as int);
            assert(a.subrange(a.len() - 1, a.len() as int) =~= ">"@);
            assert(a.take(base.len() as int) =~= base);
            assert(a.subrange(base.len() as int + 1, a.len() - 1) =~= x);
            lemma_trim_same(base);
            lemma_one_argument(*inner);
            assert(texts_of(arguments(shape)) =~= seq![x]);
            assert(a.last() == '>');
            assert(letter("any"@.last()));
            assert(join(seq![x], ","@) == x);
        },
        Shape::MapOf(inner) => {
            let x = text_of(*inner);
            assert(a[0] == 'm' && a[1] == 'a' && a[2] == 'p' && a[3] == '<');
            lemma_find_open(a, 0, 3);
            assert(a.subrange(a.len() - 1, a.len() as int) =~= ">"@);
            assert(a.take(3) =~= "map"@);
            assert(a.subrange(4, a.len() - 1) =~= "text,"@ + x);
            lemma_trim_same("map"@);
            lemma_two_arguments(*inner);
            let both = texts_of(arguments(shape));
            assert(both =~= seq!["text"@, x]);
            lemma_join_front(both, ","@);
            assert(both.skip(1) =~= seq![x]);
            assert(join(both, ","@) =~= "text,"@ + x);
            assert(a =~= "map"@ + "<"@ + join(both, ","@) + ">"@);
            assert(height(Shape::Word("text"@)) == 0);
            assert(a.last() == '>');
            assert(letter("any"@.last()));
        },
    }
}

// ---------------------------------------------------------------------------
// Values fit their types
// ---------------------------------------------------------------------------

/// Whether a value holds no future at any depth.
pub open spec fn settled(v: Val) -> bool
    decreases v,
{
    match v {
        Val::Future(_) => false,
        Val::ScheduledFuture(_) => false,
        Val::List(items) => forall|i: int| 0 <= i < items.len() ==> settled(#[trigger] items[i]),
        Val::Dict(rows) => forall|i: int| 0 <= i < rows.len() ==> settled((#[trigger] rows[i]).1),
        Val::ResultOk(inner) => settled(*inner),
        Val::ResultErr(inner) => settled(*inner),
        Val::OptionSome(inner) => settled(*inner),
        _ => true,
    }
}

proof fn lemma_any_fits(v: Val)
    ensures
        fits("any"@, v) == Ok::<bool, Str>(true),
{
    lemma_words();
    lemma_trim_same("any"@);
}

proof fn lemma_any_items(items: Seq<Val>, i: nat)
    ensures
        items_fit("any"@, items, i) == Ok::<bool, Str>(true),
    decreases items.len() - i,
{
    if i < items.len() {
        lemma_any_fits(items[i as int]);
        lemma_any_items(items, i + 1);
    }
}

proof fn lemma_any_rows(rows: Rows<Val>, i: nat)
    ensures
        rows_fit("any"@, rows, i) == Ok::<bool, Str>(true),
    decreases rows.len() - i,
{
    if i < rows.len() {
        lemma_any_fits(rows[i as int].1);
        lemma_any_rows(rows, i + 1);
    }
}

proof fn lemma_items_fit(annotation: Str, items: Seq<Val>, i: nat, depth: nat)
    requires
        forall|k: int| 0 <= k < items.len() ==> settled(#[trigger] items[k]),
        forall|k: int|
            0 <= k < items.len() ==> annotation_of(#[trigger] items[k], depth) == annotation,
    ensures
        items_fit(annotation, items, i) == Ok::<bool, Str>(true),
    decreases items, items.len() - i,
{
    if i < items.len() {
        lemma_fits(items[i as int], depth);
        lemma_items_fit(annotation, items, i + 1, depth);
    }
}

proof fn lemma_rows_fit(annotation: Str, rows: Rows<Val>, i: nat, depth: nat)
    requires
        forall|k: int| 0 <= k < rows.len() ==> settled((#[trigger] rows[k]).1),
        forall|k: int|
            0 <= k < rows.len() ==> annotation_of((#[trigger] rows[k]).1, depth) == annotation,
    ensures
        rows_fit(annotation, rows, i) == Ok::<bool, Str>(true),
    decreases rows, rows.len() - i,
{
    if i < rows.len() {
        lemma_fits(rows[i as int].1, depth);
        lemma_rows_fit(annotation, rows, i + 1, depth);
    }
}

proof fn lemma_fits(v: Val, depth: nat)
    requires
        settled(v),
    ensures
        fits(annotation_of(v, depth), v) == Ok::<bool, Str>(true),
    decreases v, 0nat,
{
    let shape = shape_of(v, depth);
    lemma_words();
    lemma_names_differ();
    lemma_shape(v, depth);
    lemma_ends(shape);
    lemma_divided(shape);
    if depth > MAX_ANNOTATION_DEPTH {
        lemma_any_fits(v);
    } else {
        match v {
            Val::List(items) => {
                let same = items.len() > 0 && (forall|i: int|
                    1 <= i < items.len() ==> annotation_of(#[trigger] items[i], depth + 1)
                        == annotation_of(items[0], depth + 1));
                if same {
                    lemma_shape(items[0], depth + 1);
                    lemma_items_fit(annotation_of(items[0], depth + 1), items, 0, depth + 1);
                } else {
                    lemma_any_items(items, 0);
                }
            },
            Val::Dict(rows) => {
                let same = rows.len() > 0 && (forall|i: int|
                    1 <= i < rows.len() ==> annotation_of((#[trigger] rows[i]).1, depth + 1)
                        == annotation_of(rows[0].1, depth + 1));
                lemma_trim_same("text"@);
                if same {
                    lemma_shape(rows[0].1, depth + 1);
                    lemma_rows_fit(annotation_of(rows[0].1, depth + 1), rows, 0, depth + 1);
                } else {
                    lemma_any_rows(rows, 0);
                }
            },
            Val::ResultOk(item) => {
                lemma_shape(*item, depth + 1);
                lemma_fits(*item, depth + 1);
            },
            Val::ResultErr(item) => {
                lemma_shape(*item, depth + 1);
                lemma_fits(*item, depth + 1);
            },
            Val::OptionSome(item) => {
                lemma_shape(*item, depth + 1);
                lemma_fits(*item, depth + 1);
            },
            _ => {},
        }
    }
}

/// Every value that holds no future fits the type that is computed for it.
pub proof fn law_values_fit_their_types(v: Val)
    requires
        settled(v),
    ensures
        fits(annotation_of(v, 0), v) == Ok::<bool, Str>(true),
{
    lemma_fits(v, 0);
}

// ---------------------------------------------------------------------------
// Parts of texts
// ---------------------------------------------------------------------------

/// Whether a text is a piece of another one.
pub open spec fn within(part: Str, whole: Str) -> bool {
    exists|i: int, j: int|
        0 <= i <= j <= whole.len() && part == #[trigger] whole.subrange(i, j)
}

proof fn lemma_within_on(a: Str, b: Str, c: Str)
    requires
        within(a, b),
        within(b, c),
    ensures
        within(a, c),
{
    let (i, j) = choose|i: int, j: int|
        0 <= i <= j <= b.len() && a == #[trigger] b.subrange(i, j);
    let (k, l) = choose|k: int, l: int|
        0 <= k <= l <= c.len() && b == #[trigger] c.subrange(k, l);
    assert(c.subrange(k + i, k + j) =~= a);
}

proof fn lemma_last_end(s: Str, i: int)
    requires
        0 <= i <= s.len(),
    ensures
        0 <= last_end(s, i) <= i,
    decreases i,
{
    if 0 < i && is_space(s[i - 1]) {
        lemma_last_end(s, i - 1);
    }
}

proof fn lemma_trim_within(s: Str)
    ensures
        within(trim(s), s),
{
    lemma_skip_spaces(s, 0);
    let front = trim_start(s);
    lemma_last_end(front, front.len() as int);
    let i = skip_spaces(s, 0);
    let j = i + last_end(front, front.len() as int);
    assert(trim(s) =~= s.subrange(i, j));
}

proof fn lemma_args_within(s: Str, start: int, i: int, depth: nat, k: int)
    requires
        0 <= start <= i <= s.len(),
        args_from(s, start, i, depth) is Ok,
        0 <= k < args_from(s, start, i, depth)->Ok_0.len(),
    ensures
        within(args_from(s, start, i, depth)->Ok_0[k], s),
    decreases s.len() - i,
{
    if i >= s.len() {
        let piece = s.subrange(start, s.len() as int);
        lemma_trim_within(piece);
        lemma_within_on(trim(piece), piece, s);
    } else if s[i] == '<' {
        lemma_args_within(s, start, i + 1, depth + 1, k);
    } else if s[i] == '>' {
        lemma_args_within(s, start, i + 1, (depth - 1) as nat, k);
    } else if s[i] == ',' && depth == 0 {
        if k == 0 {
            let piece = s.subrange(start, i);
            lemma_trim_within(piece);
            lemma_within_on(trim(piece), piece, s);
        } else {
            lemma_args_within(s, i + 1, i + 1, 0, k - 1);
        }
    } else {
        lemma_args_within(s, start, i + 1, depth, k);
    }
}

proof fn lemma_found(s: Str, part: Str, i: int, k: int)
    requires
        0 <= i <= k,
        stands_at(s, part, k),
    ensures
        find_from(s, part, i) is Some,
    decreases k - i,
{
    if !stands_at(s, part, i) {
        lemma_found(s, part, i + 1, k);
    }
}

proof fn lemma_within_includes(part: Str, whole: Str, x: Str)
    requires
        within(part, whole),
        includes(part, x),
    ensures
        includes(whole, x),
{
    let (i, j) = choose|i: int, j: int|
        0 <= i <= j <= whole.len() && part == #[trigger] whole.subrange(i, j);
    lemma_find_from(part, x, 0);
    let k = find_from(part, x, 0)->0;
    assert(whole.subrange(i + k, i + k + x.len()) =~= part.subrange(k, k + x.len()));
    lemma_found(whole, x, 0, i + k);
}

proof fn lemma_includes_itself(s: Str)
    ensures
        includes(s, s),
        within(s, s),
{
    assert(s.subrange(0, s.len() as int) =~= s);
    lemma_found(s, s, 0, 0);
}

/// What is trimmed has nothing more to trim.
pub proof fn lemma_trim_again(s: Str)
    ensures
        trim(trim(s)) == trim(s),
{
    lemma_skip_spaces(s, 0);
    let i = skip_spaces(s, 0);
    let front = trim_start(s);
    lemma_first_kept(s, 0);
    lemma_last_end(front, front.len() as int);
    lemma_last_kept(front, front.len() as int);
    let t = trim(s);
    if t.len() > 0 {
        assert(t[0] == front[0]);
        assert(front[0] == s[i]);
        assert(t.last() == front[t.len() - 1]);
        lemma_trim_same(t);
    } else {
        assert(skip_spaces(t, 0) == 0);
        assert(t.skip(0) =~= t);
        assert(trim(t) =~= t);
    }
}

proof fn lemma_first_kept(s: Str, i: int)
    requires
        0 <= i <= s.len(),
    ensures
        skip_spaces(s, i) < s.len() ==> !is_space(s[skip_spaces(s, i)]),
    decreases s.len() - i,
{
    if i < s.len() && is_space(s[i]) {
        lemma_first_kept(s, i + 1);
    }
}

proof fn lemma_last_kept(s: Str, i: int)
    requires
        0 <= i <= s.len(),
    ensures
        last_end(s, i) > 0 ==> !is_space(s[last_end(s, i) - 1]),
    decreases i,
{
    if 0 < i && is_space(s[i - 1]) {
        lemma_last_kept(s, i - 1);
    }
}

/// The arguments of an annotation are pieces of it.
proof fn lemma_arguments_within(annotation: Str, k: int)
    requires
        generic_parts(annotation) is Some,
        divided(annotation) matches Some((base, args)) && args is Ok && 0 <= k
            < args->Ok_0.len(),
    ensures
        divided(annotation) matches Some((base, args)) && within(args->Ok_0[k], annotation),
{
    if let Some(parts) = generic_parts(annotation) {
        lemma_find_from(annotation, "<"@, 0);
        lemma_args_within(parts.1, 0, 0, 0, k);
        assert(within(parts.1, annotation)) by {
            reveal_strlit("<");
            reveal_strlit(">");
            if let Some(open) = find_from(annotation, "<"@, 0) {
                assert(annotation[annotation.len() - 1] == '>') by {
                    assert(annotation.subrange(annotation.len() - 1, annotation.len() as int)[0]
                        == '>');
                }
                assert(annotation[open] == '<') by {
                    assert(annotation.subrange(open, open + 1)[0] == '<');
                }
                assert(parts.1 == annotation.subrange(open + 1, annotation.len() - 1));
            }
        }
        if let Ok(args) = generic_args(parts.1) {
            lemma_within_on(args[k], parts.1, annotation);
        }
    }
}

// ---------------------------------------------------------------------------
// Inferred bindings
// ---------------------------------------------------------------------------

/// Whether no type parameter stands anywhere in a text.
pub open spec fn unfamiliar(text: Str, type_params: Seq<Str>) -> bool {
    forall|p: Str| #[trigger] type_params.contains(p) ==> !includes(text, p)
}

/// Whether only type parameters are bound.
pub open spec fn binds_parameters(bindings: Rows<Str>, type_params: Seq<Str>) -> bool {
    ordered(bindings) && forall|k: Str|
        (#[trigger] get(bindings, k)) is Some ==> type_params.contains(k)
}

pub open spec fn extends(a: Rows<Str>, b: Rows<Str>) -> bool {
    forall|k: Str| (#[trigger] get(a, k)) is Some ==> get(b, k) == get(a, k)
}

proof fn lemma_infer_grows(e: Str, a: Str, type_params: Seq<Str>, b: Rows<Str>, depth: nat)
    requires
        binds_parameters(b, type_params),
    ensures
        binds_parameters(infer(e, a, type_params, b, depth).1, type_params),
        extends(b, infer(e, a, type_params, b, depth).1),
    decreases depth_left(depth), 0nat,
{
    let expected = trim(e);
    let actual = trim(a);
    if depth <= MAX_ANNOTATION_DEPTH {
        if type_params.contains(expected) {
            if get(b, expected) is None {
                lemma_put_ordered(b, expected, actual);
                lemma_get_put_same(b, expected, actual);
                assert forall|k: Str| k != expected implies #[trigger] get(
                    put(b, expected, actual),
                    k,
                ) == get(b, k) by {
                    lemma_get_put_other(b, expected, actual, k);
                }
            }
        } else if expected != "any"@ && expected != actual {
            if let (Some(ep), Some(ap)) = (generic_parts(expected), generic_parts(actual)) {
                if let (Ok(es), Ok(xs)) = (generic_args(ep.1), generic_args(ap.1)) {
                    lemma_infer_all_grows(es, xs, type_params, b, depth + 1, 0);
                }
            }
        }
    }
}

proof fn lemma_infer_all_grows(
    es: Seq<Str>,
    xs: Seq<Str>,
    type_params: Seq<Str>,
    b: Rows<Str>,
    depth: nat,
    i: nat,
)
    requires
        binds_parameters(b, type_params),
    ensures
        binds_parameters(infer_all(es, xs, type_params, b, depth, i).1, type_params),
        extends(b, infer_all(es, xs, type_params, b, depth, i).1),
    decreases depth_left(depth), es.len() - i + 1,
{
    if i < es.len() {
        lemma_infer_grows(es[i as int], xs[i as int], type_params, b, depth);
        let bound = infer(es[i as int], xs[i as int], type_params, b, depth).1;
        lemma_infer_all_grows(es, xs, type_params, bound, depth, i + 1);
    }
}

/// Annotations that are substituted one by one are substituted together.
proof fn lemma_substituted_all(es: Seq<Str>, done: Seq<Str>, b: Rows<Str>, depth: nat, n: nat)
    requires
        n <= es.len(),
        es.len() == done.len(),
        forall|j: int|
            0 <= j < es.len() ==> substituted(#[trigger] es[j], b, depth) == Some(done[j]),
    ensures
        substituted_all(es, b, depth, n) == Some(done.take(n as int)),
    decreases n,
{
    if n > 0 {
        lemma_substituted_all(es, done, b, depth, (n - 1) as nat);
        assert(substituted(es[n - 1], b, depth) == Some(done[n - 1]));
        assert(done.take(n as int) =~= done.take(n - 1).push(done[n - 1]));
    } else {
        assert(done.take(0) =~= Seq::<Str>::empty());
    }
}

/// The text of an argument is a piece of the text of a shape.
proof fn lemma_argument_unfamiliar(shape: Shape, k: int, type_params: Seq<Str>)
    requires
        proper(shape),
        0 <= k < arguments(shape).len(),
        unfamiliar(text_of(shape), type_params),
    ensures
        unfamiliar(text_of(arguments(shape)[k]), type_params),
{
    lemma_divided(shape);
    lemma_arguments_within(text_of(shape), k);
    let part = text_of(arguments(shape)[k]);
    assert(texts_of(arguments(shape))[k] == part);
    assert forall|p: Str| #[trigger] type_params.contains(p) implies !includes(part, p) by {
        if includes(part, p) {
            lemma_within_includes(part, text_of(shape), p);
        }
    }
}

/// An annotation is put together again from its arguments.
proof fn lemma_put_together(shape: Shape, b: Rows<Str>, depth: nat)
    requires
        proper(shape),
        !(shape is Word),
        depth <= MAX_ANNOTATION_DEPTH,
        get(b, text_of(shape)) is None,
        substituted_all(
            texts_of(arguments(shape)),
            b,
            depth + 1,
            texts_of(arguments(shape)).len(),
        ) == Some(texts_of(arguments(shape))),
    ensures
        substituted(text_of(shape), b, depth) == Some(text_of(shape)),
{
    lemma_ends(shape);
    lemma_divided(shape);
    if let Some(parts) = generic_parts(text_of(shape)) {
        assert(trim(parts.0) == base_of(shape));
        assert(generic_args(parts.1) == Ok::<Seq<Str>, Str>(texts_of(arguments(shape))));
    }
}

proof fn lemma_unbound(x: Str, type_params: Seq<Str>, b: Rows<Str>)
    requires
        unfamiliar(x, type_params),
        binds_parameters(b, type_params),
    ensures
        get(b, x) is None,
{
    lemma_includes_itself(x);
}

proof fn lemma_substituted_argument(
    shape: Shape,
    k: int,
    type_params: Seq<Str>,
    b: Rows<Str>,
    depth: nat,
)
    requires
        proper(shape),
        0 <= k < arguments(shape).len(),
        depth + height(shape) <= MAX_ANNOTATION_DEPTH,
        unfamiliar(text_of(shape), type_params),
        binds_parameters(b, type_params),
    ensures
        substituted(texts_of(arguments(shape))[k], b, depth + 1) == Some(
            texts_of(arguments(shape))[k],
        ),
    decreases height(shape), 0nat,
{
    let inner = arguments(shape)[k];
    assert(proper(inner) && height(inner) < height(shape)) by {
        lemma_divided(shape);
    }
    lemma_argument_unfamiliar(shape, k, type_params);
    lemma_substituted_same(inner, type_params, b, depth + 1);
}

/// Substitution leaves a type without parameters as it is.
proof fn lemma_substituted_same(
    shape: Shape,
    type_params: Seq<Str>,
    b: Rows<Str>,
    depth: nat,
)
    requires
        proper(shape),
        depth + height(shape) <= MAX_ANNOTATION_DEPTH,
        unfamiliar(text_of(shape), type_params),
        binds_parameters(b, type_params),
    ensures
        substituted(text_of(shape), b, depth) == Some(text_of(shape)),
    decreases height(shape), 1nat,
{
    lemma_unbound(text_of(shape), type_params, b);
    if shape is Word {
        lemma_ends(shape);
        lemma_divided(shape);
    } else {
        let args = texts_of(arguments(shape));
        assert forall|j: int| 0 <= j < args.len() implies substituted(
            #[trigger] args[j],
            b,
            depth + 1,
        ) == Some(args[j]) by {
            lemma_substituted_argument(shape, j, type_params, b, depth);
        }
        assert(substituted_all(args, b, depth + 1, args.len()) == Some(args)) by {
            lemma_substituted_all(args, args, b, depth + 1, args.len());
            assert(args.take(args.len() as int) =~= args);
        }
        assert(depth <= MAX_ANNOTATION_DEPTH);
        lemma_put_together(shape, b, depth);
    }
}

proof fn lemma_substituted_inferred(
    e: Str,
    shape: Shape,
    type_params: Seq<Str>,
    b: Rows<Str>,
    last: Rows<Str>,
    depth: nat,
)
    requires
        proper(shape),
        depth + height(shape) <= MAX_ANNOTATION_DEPTH,
        unfamiliar(text_of(shape), type_params),
        !includes(e, "any"@),
        binds_parameters(b, type_params),
        binds_parameters(last, type_params),
        infer(e, text_of(shape), type_params, b, depth).0,
        extends(infer(e, text_of(shape), type_params, b, depth).1, last),
    ensures
        substituted(e, last, depth) == Some(text_of(shape)),
    decreases depth_left(depth), 0nat,
{
    let x = text_of(shape);
    let expected = trim(e);
    lemma_ends(shape);
    lemma_divided(shape);
    lemma_trim_within(e);
    lemma_trim_again(e);
    if type_params.contains(expected) {
        lemma_get_put_same(b, expected, x);
        assert(get(infer(e, x, type_params, b, depth).1, expected) == Some(x));
    } else if expected == "any"@ {
        lemma_includes_itself("any"@);
        lemma_within_includes(expected, e, "any"@);
    } else if expected == x {
        lemma_substituted_same(shape, type_params, last, depth);
    } else {
        assert(get(last, expected) is None);
        if let (Some(ep), Some(ap)) = (generic_parts(expected), generic_parts(x)) {
            if let Ok(es) = generic_args(ep.1) {
                let shapes = arguments(shape);
                let xs = texts_of(shapes);
                assert(generic_args(ap.1) == Ok::<Seq<Str>, Str>(xs));
                assert forall|j: int| 0 <= j < es.len() implies !includes(
                    #[trigger] es[j],
                    "any"@,
                ) by {
                    if includes(es[j], "any"@) {
                        lemma_arguments_within(expected, j);
                        lemma_within_includes(es[j], expected, "any"@);
                        lemma_within_includes(expected, e, "any"@);
                    }
                }
                assert forall|j: int| 0 <= j < shapes.len() implies proper(#[trigger] shapes[j])
                    && depth + 1 + height(shapes[j]) <= MAX_ANNOTATION_DEPTH && unfamiliar(
                    text_of(shapes[j]),
                    type_params,
                ) by {
                    lemma_argument_unfamiliar(shape, j, type_params);
                }
                lemma_substituted_arguments(es, shapes, type_params, b, last, depth + 1, 0);
                assert forall|j: int| 0 <= j < es.len() implies substituted(
                    #[trigger] es[j],
                    last,
                    depth + 1,
                ) == Some(xs[j]) by {
                    assert(xs[j] == text_of(shapes[j]));
                }
                lemma_substituted_all(es, xs, last, depth + 1, es.len());
                assert(xs.take(es.len() as int) =~= xs);
            }
        }
    }
}

proof fn lemma_substituted_arguments(
    es: Seq<Str>,
    shapes: Seq<Shape>,
    type_params: Seq<Str>,
    b: Rows<Str>,
    last: Rows<Str>,
    depth: nat,
    i: nat,
)
    requires
        es.len() == shapes.len(),
        forall|j: int|
            0 <= j < shapes.len() ==> proper(#[trigger] shapes[j]) && depth + height(shapes[j])
                <= MAX_ANNOTATION_DEPTH && unfamiliar(text_of(shapes[j]), type_params),
        forall|j: int| 0 <= j < es.len() ==> !includes(#[trigger] es[j], "any"@),
        binds_parameters(b, type_params),
        binds_parameters(last, type_params),
        infer_all(es, texts_of(shapes), type_params, b, depth, i).0,
        extends(infer_all(es, texts_of(shapes), type_params, b, depth, i).1, last),
    ensures
        forall|j: int|
            i <= j < es.len() ==> substituted(#[trigger] es[j], last, depth) == Some(
                text_of(shapes[j]),
            ),
    decreases depth_left(depth), es.len() - i + 1,
{
    if i < es.len() {
        let xs = texts_of(shapes);
        assert(xs[i as int] == text_of(shapes[i as int]));
        let bound = infer(es[i as int], xs[i as int], type_params, b, depth).1;
        lemma_infer_grows(es[i as int], xs[i as int], type_params, b, depth);
        lemma_infer_all_grows(es, xs, type_params, bound, depth, i + 1);
        assert(proper(shapes[i as int]));
        assert(!includes(es[i as int], "any"@));
        lemma_substituted_inferred(
            es[i as int],
            shapes[i as int],
            type_params,
            b,
            last,
            depth,
        );
        lemma_substituted_arguments(es, shapes, type_params, bound, last, depth, i + 1);
    }
}

/// Whether a value is nested at most so deep.
pub open spec fn nested(v: Val, depth: nat) -> bool
    decreases v,
{
    match v {
        Val::List(items) => depth > 0 && forall|i: int|
            0 <= i < items.len() ==> nested(#[trigger] items[i], (depth - 1) as nat),
        Val::Dict(rows) => depth > 0 && forall|i: int|
            0 <= i < rows.len() ==> nested((#[trigger] rows[i]).1, (depth - 1) as nat),
        Val::ResultOk(inner) => depth > 0 && nested(*inner, (depth - 1) as nat),
        Val::ResultErr(inner) => depth > 0 && nested(*inner, (depth - 1) as nat),
        Val::OptionSome(inner) => depth > 0 && nested(*inner, (depth - 1) as nat),
        Val::OptionNone => depth > 0,
        _ => true,
    }
}

proof fn lemma_height(v: Val, at: nat, depth: nat)
    requires
        nested(v, depth),
    ensures
        height(shape_of(v, at)) <= depth,
    decreases v,
{
    reveal_with_fuel(height, 2);
    if at <= MAX_ANNOTATION_DEPTH {
        match v {
            Val::List(items) => {
                if items.len() > 0 {
                    assert(nested(items[0], (depth - 1) as nat));
                    lemma_height(items[0], at + 1, (depth - 1) as nat);
                }
            },
            Val::Dict(rows) => {
                if rows.len() > 0 {
                    assert(nested(rows[0].1, (depth - 1) as nat));
                    lemma_height(rows[0].1, at + 1, (depth - 1) as nat);
                }
            },
            Val::ResultOk(inner) => {
                lemma_height(*inner, at + 1, (depth - 1) as nat);
            },
            Val::ResultErr(inner) => {
                lemma_height(*inner, at + 1, (depth - 1) as nat);
            },
            Val::OptionSome(inner) => {
                lemma_height(*inner, at + 1, (depth - 1) as nat);
            },
            _ => {},
        }
    }
}

/// The bindings that an argument's type gives for a generic annotation lead back to that type:
/// putting them in place of the type parameters gives the type of the argument. The annotation
/// does not mention `any`, and no type parameter stands in the argument's type.
pub proof fn law_inferred_bindings_give_the_type(e: Str, v: Val, type_params: Seq<Str>)
    requires
        nested(v, MAX_ANNOTATION_DEPTH as nat),
        unfamiliar(annotation_of(v, 0), type_params),
        !includes(e, "any"@),
        infer(e, annotation_of(v, 0), type_params, Seq::empty(), 0).0,
    ensures
        substituted(e, infer(e, annotation_of(v, 0), type_params, Seq::empty(), 0).1, 0) == Some(
            annotation_of(v, 0),
        ),
{
    let none = Seq::<(Str, Str)>::empty();
    lemma_shape(v, 0);
    lemma_height(v, 0, MAX_ANNOTATION_DEPTH as nat);
    assert(binds_parameters(none, type_params));
    lemma_infer_grows(e, annotation_of(v, 0), type_params, none, 0);
    let last = infer(e, annotation_of(v, 0), type_params, none, 0).1;
    lemma_substituted_inferred(e, shape_of(v, 0), type_params, none, last, 0);
}

} // verus!
