//! What a server accepts and what it answers: the fields of a request against their schema, the
//! route that a request takes, the head and the body of a response, and the parts of a request.

use crate::json::from_json;
use crate::laws::lemma_known_fields;
use crate::layout::lines_of;
use crate::outside::parsed_json;
use crate::semantics::{answered, answered_as, call_function, positional, request_limit, web_serve};
use crate::table::{
    get, lemma_get_found, lemma_get_put_other, lemma_get_put_same, lemma_put_ordered, ordered, put,
    slot, Rows,
};
use crate::text::{ascii_lower, cut, decimal, includes, made_of, size, split, trim, words, Str};
use crate::value::{kind_name, within_limits, Fun, Val};
use crate::web::{
    body_read, error_response, extra_headers, has_newline, head_end, headers_read, is_head_end,
    once_accepted, once_line, once_read, once_record, once_response, path_params, reason,
    request_read, request_value, response_body, result_error_response, result_response, routed,
    segments_match, serve_once, text_rows, unsigned, value_response, RequestM, Target,
};
use crate::webcheck::{
    bad_schema_name, checked_rule, field_outcome, fields_outcome, good_route_path, good_schema_name,
    leads, request_body, route_shape, unknown_field, validated_request, validation_error, Step,
};
use crate::world::{ask, World};
use vstd::prelude::*;
use vstd::utf8::{decode_utf8, encode_utf8, valid_utf8};

verus! {

// ---------------------------------------------------------------------------
// Fields and their schema
// ---------------------------------------------------------------------------

/// Whether a schema entry asks for values of a type, by its name.
pub open spec fn asks_for(entry: Val, expected: Str) -> bool {
    ||| entry == Val::Text(expected)
    ||| entry is Dict && get(entry->Dict_0, "type"@) == Some(Val::Text(expected))
}

/// Whether a field may not be left out, going by its schema entry.
pub open spec fn is_needed(entry: Val) -> bool {
    ||| entry is Text
    ||| entry is Dict && get(entry->Dict_0, "required"@) != Some(Val::Bool(false))
}

/// Whether a schema entry bounds texts to a number of bytes.
pub open spec fn bounds_texts(entry: Val, n: i64) -> bool {
    entry is Dict && get(entry->Dict_0, "max_len"@) == Some(Val::Number(n))
}

/// Whether a word names a type that a schema may ask for.
pub open spec fn names_a_type(word: Str) -> bool {
    ||| word == "text"@
    ||| word == "number"@
    ||| word == "bool"@
    ||| word == "map"@
    ||| word == "list"@
    ||| word == "none"@
}

/// A field that passes has the type that its schema entry names, and a text with a bound is within
/// it. A field that passes without a value is one that may be left out.
pub proof fn law_passing_fields_have_their_type(field: Str, entry: Val, body: Rows<Val>)
    requires
        field_outcome(field, entry, body) is Ok,
    ensures
        get(body, field) is Some ==> {
            &&& asks_for(entry, kind_name(get(body, field)->0))
            &&& forall|n: i64| #[trigger]
                bounds_texts(entry, n) ==> get(body, field)->0 is Text && size(
                    get(body, field)->0->Text_0,
                ) <= n
            &&& field_outcome(field, entry, body) == Ok::<Option<Val>, Val>(get(body, field))
        },
        get(body, field) is None ==> !is_needed(entry) && field_outcome(field, entry, body) == Ok::<
            Option<Val>,
            Val,
        >(None),
{
    if get(body, field) is Some {
        let value = get(body, field)->0;
        if kind_name(value) == "text"@ {
            crate::typing::lemma_kinds_differ();
        }
        assert forall|n: i64| #[trigger] bounds_texts(entry, n) implies value is Text && size(
            value->Text_0,
        ) <= n by {
            reveal_strlit("text");
            reveal_strlit("any");
            assert("text"@.len() == 4 && "any"@.len() == 3);
            crate::typing::law_kinds_are_what_values_are(value, "text"@);
        }
    }
}

/// A request that is accepted has only fields that its schema declares, each of the type that the
/// schema names for it and each text within its bound, and it has every field that the schema
/// needs. It is handed on as it came.
pub proof fn law_accepted_fields_have_their_types(
    body: Rows<Val>,
    schema: Rows<Val>,
    out: Rows<Val>,
    name: Str,
)
    requires
        ordered(body),
        ordered(schema),
        validated_request(seq![Val::Dict(body), Val::Dict(schema)]) == Ok::<Val, Str>(
            Val::ResultOk(Box::new(Val::Dict(out))),
        ),
    ensures
        1 <= schema.len() <= 64,
        get(out, name) == get(body, name),
        get(body, name) is Some ==> {
            &&& get(schema, name) is Some
            &&& asks_for(get(schema, name)->0, kind_name(get(body, name)->0))
            &&& forall|n: i64| #[trigger]
                bounds_texts(get(schema, name)->0, n) ==> get(body, name)->0 is Text && size(
                    get(body, name)->0->Text_0,
                ) <= n
        },
        get(schema, name) is Some && is_needed(get(schema, name)->0) ==> get(body, name) is Some,
{
    crate::laws::law_accepted_requests_meet_their_schema(body, schema, out, name);
    lemma_get_found(schema, name);
    if get(schema, name) is Some {
        let j = slot(schema, name);
        assert(schema[j].0 == name);
        law_passing_fields_have_their_type(name, schema[j].1, body);
    }
}

/// Whether a schema entry is well formed: the name of a type, or a map of options with one, in
/// which a flag says whether the field is needed and a number from 0 to 65536 bounds a text.
pub open spec fn good_entry(entry: Val) -> bool {
    ||| entry is Text && names_a_type(entry->Text_0)
    ||| {
        &&& entry is Dict
        &&& forall|i: int|
            0 <= i < entry->Dict_0.len() ==> {
                ||| (#[trigger] entry->Dict_0[i]).0 == "type"@
                ||| entry->Dict_0[i].0 == "required"@
                ||| entry->Dict_0[i].0 == "max_len"@
            }
        &&& get(entry->Dict_0, "type"@) is Some
        &&& get(entry->Dict_0, "type"@)->0 is Text
        &&& names_a_type(get(entry->Dict_0, "type"@)->0->Text_0)
        &&& get(entry->Dict_0, "required"@) is Some ==> get(entry->Dict_0, "required"@)->0 is Bool
        &&& get(entry->Dict_0, "max_len"@) is Some ==> {
            &&& get(entry->Dict_0, "max_len"@)->0 is Number
            &&& 0 <= get(entry->Dict_0, "max_len"@)->0->Number_0 <= 65_536
            &&& get(entry->Dict_0, "type"@)->0->Text_0 == "text"@
        }
    }
}

/// Whether what a request has for a field is what a schema entry asks for.
pub open spec fn meets(entry: Val, value: Option<Val>) -> bool {
    match value {
        None => !is_needed(entry),
        Some(v) => asks_for(entry, kind_name(v)) && forall|n: i64| #[trigger]
            bounds_texts(entry, n) ==> v is Text && size(v->Text_0) <= n,
    }
}

/// A field with a well formed schema entry passes if and only if it is what the entry asks for.
pub proof fn law_fields_pass_if_they_meet_their_entry(field: Str, entry: Val, body: Rows<Val>)
    requires
        good_entry(entry),
    ensures
        field_outcome(field, entry, body) is Ok <==> meets(entry, get(body, field)),
{
    if field_outcome(field, entry, body) is Ok {
        law_passing_fields_have_their_type(field, entry, body);
    } else {
        assert(checked_rule(entry) is Ok);
        if let Some(v) = get(body, field) {
            if entry is Dict {
                if let Some(Val::Number(n)) = get(entry->Dict_0, "max_len"@) {
                    assert(bounds_texts(entry, n));
                }
            }
        }
    }
}

/// An entry that is not well formed never lets a request pass.
pub proof fn law_bad_entries_are_refused(field: Str, entry: Val, body: Rows<Val>)
    requires
        !good_entry(entry),
    ensures
        field_outcome(field, entry, body) is Err,
{
    if entry is Dict && field_outcome(field, entry, body) is Ok {
        let options = entry->Dict_0;
        assert(crate::webcheck::known_options(options));
    }
}

/// The answer to a field that does not pass says what is wrong with it: a status of 400, the
/// field, and whether it is missing, of another type or too long.
pub proof fn law_refused_fields_are_told(field: Str, entry: Val, body: Rows<Val>)
    requires
        good_entry(entry),
        !meets(entry, get(body, field)),
    ensures
        ({
            let answer = field_outcome(field, entry, body)->Err_0;
            &&& answer is ResultErr && (*answer->ResultErr_0) is Dict
            &&& get((*answer->ResultErr_0)->Dict_0, "status"@) == Some(Val::Number(400))
            &&& get((*answer->ResultErr_0)->Dict_0, "field"@) == Some(Val::Text(field))
            &&& get((*answer->ResultErr_0)->Dict_0, "code"@) == Some(
                Val::Text(
                    if get(body, field) is None {
                        "missing_field"@
                    } else if !asks_for(entry, kind_name(get(body, field)->0)) {
                        "invalid_type"@
                    } else {
                        "value_too_long"@
                    },
                ),
            )
        }),
{
    law_fields_pass_if_they_meet_their_entry(field, entry, body);
    lemma_validation_error("missing_field"@, "required request field is missing"@, field);
    lemma_validation_error(
        "value_too_long"@,
        "request text field exceeds the schema max_len"@,
        field,
    );
    if let Ok(rule) = checked_rule(entry) {
        if let Some(value) = get(body, field) {
            lemma_validation_error(
                "invalid_type"@,
                "request field has type "@ + kind_name(value) + ", expected "@ + rule.expected,
                field,
            );
        }
    }
}

proof fn lemma_validation_error(code: Str, message: Str, field: Str)
    ensures
        ({
            let answer = validation_error(code, message, Some(field));
            &&& answer is ResultErr && (*answer->ResultErr_0) is Dict
            &&& get((*answer->ResultErr_0)->Dict_0, "status"@) == Some(Val::Number(400))
            &&& get((*answer->ResultErr_0)->Dict_0, "field"@) == Some(Val::Text(field))
            &&& get((*answer->ResultErr_0)->Dict_0, "code"@) == Some(Val::Text(code))
        }),
{
    reveal_strlit("status");
    reveal_strlit("code");
    reveal_strlit("message");
    reveal_strlit("field");
    assert("status"@.len() == 6);
    assert("code"@.len() == 4);
    assert("message"@.len() == 7);
    assert("field"@.len() == 5);
    let none: Rows<Val> = Seq::empty();
    let a = put(none, "status"@, Val::Number(400));
    let b = put(a, "code"@, Val::Text(code));
    let c = put(b, "message"@, Val::Text(message));
    lemma_put_ordered(none, "status"@, Val::Number(400));
    lemma_put_ordered(a, "code"@, Val::Text(code));
    lemma_put_ordered(b, "message"@, Val::Text(message));
    lemma_get_put_same(none, "status"@, Val::Number(400));
    lemma_get_put_same(a, "code"@, Val::Text(code));
    lemma_get_put_same(c, "field"@, Val::Text(field));
    lemma_get_put_other(a, "code"@, Val::Text(code), "status"@);
    lemma_get_put_other(b, "message"@, Val::Text(message), "status"@);
    lemma_get_put_other(b, "message"@, Val::Text(message), "code"@);
    lemma_get_put_other(c, "field"@, Val::Text(field), "status"@);
    lemma_get_put_other(c, "field"@, Val::Text(field), "code"@);
}

proof fn lemma_fields_accepted(schema: Rows<Val>, i: nat, body: Rows<Val>, done: Rows<Val>)
    requires
        forall|j: int|
            i <= j < schema.len() ==> field_outcome(
                (#[trigger] schema[j]).0,
                schema[j].1,
                body,
            ) is Ok,
    ensures
        fields_outcome(schema, i, body, done) is ResultOk,
        (*fields_outcome(schema, i, body, done)->ResultOk_0) is Dict,
    decreases schema.len() - i,
{
    if i < schema.len() {
        match field_outcome(schema[i as int].0, schema[i as int].1, body)->Ok_0 {
            None => {
                lemma_fields_accepted(schema, i + 1, body, done);
            },
            Some(value) => {
                lemma_fields_accepted(schema, i + 1, body, put(done, schema[i as int].0, value));
            },
        }
    }
}

proof fn lemma_names_good(schema: Rows<Val>, i: nat)
    requires
        forall|j: int| i <= j < schema.len() ==> good_schema_name((#[trigger] schema[j]).0),
    ensures
        bad_schema_name(schema, i) is None,
    decreases schema.len() - i,
{
    if i < schema.len() {
        lemma_names_good(schema, i + 1);
    }
}

proof fn lemma_fields_known(body: Rows<Val>, schema: Rows<Val>, i: nat)
    requires
        forall|j: int| i <= j < body.len() ==> get(schema, (#[trigger] body[j]).0) is Some,
    ensures
        unknown_field(body, schema, i) is None,
    decreases body.len() - i,
{
    if i < body.len() {
        lemma_fields_known(body, schema, i + 1);
    }
}

/// A request with only declared fields, each of which is what its well formed schema entry asks
/// for, is accepted.
pub proof fn law_good_requests_are_accepted(body: Rows<Val>, schema: Rows<Val>)
    requires
        1 <= schema.len() <= 64,
        forall|j: int|
            0 <= j < schema.len() ==> {
                &&& 0 < size((#[trigger] schema[j]).0) <= 128
                &&& made_of(schema[j].0, "_"@)
                &&& good_entry(schema[j].1)
                &&& meets(schema[j].1, get(body, schema[j].0))
            },
        forall|j: int| 0 <= j < body.len() ==> get(schema, (#[trigger] body[j]).0) is Some,
    ensures
        validated_request(seq![Val::Dict(body), Val::Dict(schema)]) is Ok,
        validated_request(seq![Val::Dict(body), Val::Dict(schema)])->Ok_0 is ResultOk,
{
    assert forall|j: int| 0 <= j < schema.len() implies good_schema_name((#[trigger] schema[j]).0)
        && field_outcome(schema[j].0, schema[j].1, body) is Ok by {
        law_fields_pass_if_they_meet_their_entry(schema[j].0, schema[j].1, body);
    }
    lemma_names_good(schema, 0);
    lemma_fields_known(body, schema, 0);
    lemma_fields_accepted(schema, 0, body, Seq::empty());
}

/// A request with a field that its schema does not declare, and a schema without a field or with
/// more than 64, is refused.
pub proof fn law_undeclared_fields_are_refused(body: Rows<Val>, schema: Rows<Val>, name: Str)
    requires
        ordered(body),
        (get(body, name) is Some && get(schema, name) is None) || schema.len() == 0 || schema.len()
            > 64,
    ensures
        validated_request(seq![Val::Dict(body), Val::Dict(schema)]) is Ok,
        validated_request(seq![Val::Dict(body), Val::Dict(schema)])->Ok_0 is ResultErr,
{
    if get(body, name) is Some && get(schema, name) is None {
        lemma_get_found(body, name);
        if unknown_field(body, schema, 0) is None {
            lemma_known_fields(body, schema, 0, slot(body, name));
        }
    }
}

// ---------------------------------------------------------------------------
// Routes
// ---------------------------------------------------------------------------

/// Whether a route has a path that matches.
pub open spec fn has_path_for(route: Val, request: RequestM) -> bool {
    &&& route is Dict
    &&& get(route->Dict_0, "path"@) is Some
    &&& get(route->Dict_0, "path"@)->0 is Text
    &&& path_params(get(route->Dict_0, "path"@)->0->Text_0, request.path) is Some
}

/// Whether a route has the method of a request.
pub open spec fn has_method_of(route: Val, request: RequestM) -> bool {
    route is Dict && get(route->Dict_0, "method"@) == Some(Val::Text(request.method))
}

/// Whether a function is the handler of a route.
pub open spec fn handles(route: Val, f: Fun, funcs: Rows<Fun>) -> bool {
    &&& route is Dict
    &&& get(route->Dict_0, "handler"@) is Some
    &&& {
        ||| get(route->Dict_0, "handler"@)->0 == Val::Callable(f)
        ||| get(route->Dict_0, "handler"@)->0 is Text && get(
            funcs,
            get(route->Dict_0, "handler"@)->0->Text_0,
        ) == Some(f)
    }
}

/// Whether a route is the first one, from number `i` on, that has the path and the method of a
/// request.
pub open spec fn is_first_route(routes: Seq<Val>, request: RequestM, i: int, k: int) -> bool {
    &&& i <= k < routes.len()
    &&& has_path_for(routes[k], request) && has_method_of(routes[k], request)
    &&& forall|j: int|
        i <= j < k ==> !(has_path_for(#[trigger] routes[j], request) && has_method_of(
            routes[j],
            request,
        ))
}

proof fn lemma_routes_taken(
    routes: Seq<Val>,
    funcs: Rows<Fun>,
    request: RequestM,
    i: nat,
    matched: bool,
) -> (k: int)
    requires
        i <= routes.len(),
        routed(routes, funcs, request, i, matched) is Ok,
    ensures
        routed(routes, funcs, request, i, matched)->Ok_0 matches Target::Handler(f, params) ==> {
            &&& is_first_route(routes, request, i as int, k)
            &&& handles(routes[k], f, funcs)
            &&& path_params(get(routes[k]->Dict_0, "path"@)->0->Text_0, request.path) == Some(
                params,
            )
        },
        !(routed(routes, funcs, request, i, matched)->Ok_0 is Handler) ==> (forall|j: int|
            i <= j < routes.len() ==> !(has_path_for(#[trigger] routes[j], request)
                && has_method_of(routes[j], request))),
        routed(routes, funcs, request, i, matched)->Ok_0 is NotFound ==> !matched && (forall|
            j: int,
        |
            i <= j < routes.len() ==> !has_path_for(#[trigger] routes[j], request)),
        routed(routes, funcs, request, i, matched)->Ok_0 is NotAllowed ==> matched || (exists|
            j: int,
        |
            i <= j < routes.len() && has_path_for(#[trigger] routes[j], request)),
    decreases routes.len() - i,
{
    if i >= routes.len() {
        0
    } else if has_path_for(routes[i as int], request) && has_method_of(
        routes[i as int],
        request,
    ) {
        i as int
    } else {
        let next = matched || has_path_for(routes[i as int], request);
        lemma_routes_taken(routes, funcs, request, i + 1, next)
    }
}

/// A request goes to the handler of the first route that has its path and its method, with the
/// parts of the path that the route names. Where no route has the path, nothing is found; where
/// routes have the path but none of them has the method, the method is not allowed.
pub proof fn law_requests_take_the_first_route(
    routes: Seq<Val>,
    funcs: Rows<Fun>,
    request: RequestM,
)
    requires
        routed(routes, funcs, request, 0, false) is Ok,
    ensures
        match routed(routes, funcs, request, 0, false)->Ok_0 {
            Target::Handler(f, params) => exists|k: int| #[trigger]
                is_first_route(routes, request, 0, k) && handles(routes[k], f, funcs)
                    && path_params(get(routes[k]->Dict_0, "path"@)->0->Text_0, request.path)
                    == Some(params),
            Target::NotFound => forall|j: int|
                0 <= j < routes.len() ==> !has_path_for(#[trigger] routes[j], request),
            Target::NotAllowed => {
                &&& exists|j: int|
                    0 <= j < routes.len() && has_path_for(#[trigger] routes[j], request)
                &&& forall|j: int|
                    0 <= j < routes.len() ==> !(has_path_for(#[trigger] routes[j], request)
                        && has_method_of(routes[j], request))
            },
        },
{
    let k = lemma_routes_taken(routes, funcs, request, 0, false);
    if let Target::Handler(f, params) = routed(routes, funcs, request, 0, false)->Ok_0 {
        assert(is_first_route(routes, request, 0, k));
    }
}

/// A request is answered with what was found for it: by its handler's response, by 404 where no
/// route has its path, by 405 where none of those has its method, and by 500 where the handler
/// fails or returns no response.
pub proof fn law_answers_follow_routes(
    found: RequestM,
    id: Str,
    routes: Seq<Val>,
    funcs: Rows<Fun>,
    w: World,
    fuel: nat,
)
    requires
        routed(routes, funcs, found, 0, false) is Ok,
    ensures
        ({
            let target = routed(routes, funcs, found, 0, false)->Ok_0;
            let (r, after) = answered_as(found, id, routes, funcs, w, fuel);
            &&& target is NotFound ==> r == Ok::<Seq<u8>, Str>(
                error_response(404, "not_found"@, id),
            ) && after == w
            &&& target is NotAllowed ==> r == Ok::<Seq<u8>, Str>(
                error_response(405, "method_not_allowed"@, id),
            ) && after == w
            &&& target is Handler ==> {
                let (called, w2) = call_function(
                    target->Handler_0,
                    positional(seq![request_value(found, id, target->Handler_1)]),
                    funcs,
                    w,
                    fuel,
                );
                &&& after == w2
                &&& w2.pending is None ==> {
                    &&& called is Ok && result_response(called->Ok_0, id, w2) is Ok ==> r == Ok::<
                        Seq<u8>,
                        Str,
                    >(result_response(called->Ok_0, id, w2)->Ok_0)
                    &&& called is Err || result_response(called->Ok_0, id, w2) is Err ==> r == Ok::<
                        Seq<u8>,
                        Str,
                    >(error_response(500, "handler_error"@, id))
                }
            }
        }),
{
}

proof fn lemma_request_keys()
    ensures
        "method"@ != "path"@,
        "method"@ != "body"@,
        "method"@ != "request_id"@,
        "method"@ != "headers"@,
        "method"@ != "params"@,
        "path"@ != "body"@,
        "path"@ != "request_id"@,
        "path"@ != "headers"@,
        "path"@ != "params"@,
        "body"@ != "request_id"@,
        "body"@ != "headers"@,
        "body"@ != "params"@,
        "request_id"@ != "headers"@,
        "request_id"@ != "params"@,
        "headers"@ != "params"@,
{
    reveal_strlit("method");
    reveal_strlit("path");
    reveal_strlit("body");
    reveal_strlit("request_id");
    reveal_strlit("headers");
    reveal_strlit("params");
    assert("method"@.len() == 6 && "method"@[0] == 'm');
    assert("path"@.len() == 4 && "path"@[0] == 'p');
    assert("body"@.len() == 4 && "body"@[0] == 'b');
    assert("request_id"@.len() == 10);
    assert("headers"@.len() == 7);
    assert("params"@.len() == 6 && "params"@[0] == 'p');
}

/// A handler sees its request as it came: the method, the path, the body, the headers, and beside
/// them the identifier and the named parts of the path.
pub proof fn law_handlers_see_the_request(request: RequestM, id: Str, params: Rows<Val>)
    ensures
        request_value(request, id, params) is Dict,
        ({
            let rows = request_value(request, id, params)->Dict_0;
            &&& get(rows, "method"@) == Some(Val::Text(request.method))
            &&& get(rows, "path"@) == Some(Val::Text(request.path))
            &&& get(rows, "body"@) == Some(Val::Text(request.body))
            &&& get(rows, "request_id"@) == Some(Val::Text(id))
            &&& get(rows, "params"@) == Some(Val::Dict(params))
            &&& get(rows, "headers"@) is Some && get(rows, "headers"@)->0 is Dict
            &&& get(rows, "headers"@)->0->Dict_0.len() == request.headers.len()
            &&& forall|i: int|
                0 <= i < request.headers.len() ==> (#[trigger] get(
                    rows,
                    "headers"@,
                )->0->Dict_0[i]) == (request.headers[i].0, Val::Text(request.headers[i].1))
        }),
{
    lemma_request_keys();
    let none: Rows<Val> = Seq::empty();
    let v1 = Val::Text(request.method);
    let v2 = Val::Text(request.path);
    let v3 = Val::Text(request.body);
    let v4 = Val::Text(id);
    let v5 = Val::Dict(text_rows(request.headers));
    let v6 = Val::Dict(params);
    let a = put(none, "method"@, v1);
    let b = put(a, "path"@, v2);
    let c = put(b, "body"@, v3);
    let d = put(c, "request_id"@, v4);
    let e = put(d, "headers"@, v5);
    lemma_put_ordered(none, "method"@, v1);
    lemma_put_ordered(a, "path"@, v2);
    lemma_put_ordered(b, "body"@, v3);
    lemma_put_ordered(c, "request_id"@, v4);
    lemma_put_ordered(d, "headers"@, v5);
    lemma_get_put_same(none, "method"@, v1);
    lemma_get_put_same(a, "path"@, v2);
    lemma_get_put_same(b, "body"@, v3);
    lemma_get_put_same(c, "request_id"@, v4);
    lemma_get_put_same(d, "headers"@, v5);
    lemma_get_put_same(e, "params"@, v6);
    lemma_get_put_other(a, "path"@, v2, "method"@);
    lemma_get_put_other(b, "body"@, v3, "method"@);
    lemma_get_put_other(c, "request_id"@, v4, "method"@);
    lemma_get_put_other(d, "headers"@, v5, "method"@);
    lemma_get_put_other(e, "params"@, v6, "method"@);
    lemma_get_put_other(b, "body"@, v3, "path"@);
    lemma_get_put_other(c, "request_id"@, v4, "path"@);
    lemma_get_put_other(d, "headers"@, v5, "path"@);
    lemma_get_put_other(e, "params"@, v6, "path"@);
    lemma_get_put_other(c, "request_id"@, v4, "body"@);
    lemma_get_put_other(d, "headers"@, v5, "body"@);
    lemma_get_put_other(e, "params"@, v6, "body"@);
    lemma_get_put_other(d, "headers"@, v5, "request_id"@);
    lemma_get_put_other(e, "params"@, v6, "request_id"@);
    lemma_get_put_other(e, "params"@, v6, "headers"@);
}

// ---------------------------------------------------------------------------
// Paths and their patterns
// ---------------------------------------------------------------------------

/// Whether a segment of a pattern takes a segment of a path.
pub open spec fn takes(expected: Str, actual: Str) -> bool {
    if expected.len() > 0 && expected[0] == ':' {
        expected.len() > 1 && actual.len() > 0
    } else {
        expected == actual
    }
}

proof fn lemma_segments(
    pattern: Seq<Str>,
    path: Seq<Str>,
    i: nat,
    n: nat,
    params: Rows<Val>,
    name: Str,
)
    requires
        n <= pattern.len(),
        n <= path.len(),
        ordered(params),
    ensures
        segments_match(pattern, path, i, n, params) is Some <==> (forall|k: int|
            i <= k < n ==> takes(#[trigger] pattern[k], path[k])),
        segments_match(pattern, path, i, n, params) is Some ==> ordered(
            segments_match(pattern, path, i, n, params)->0,
        ),
        segments_match(pattern, path, i, n, params) is Some && (forall|k: int|
            i <= k < n ==> #[trigger] pattern[k] != seq![':'] + name) ==> get(
            segments_match(pattern, path, i, n, params)->0,
            name,
        ) == get(params, name),
    decreases n - i,
{
    if i < n {
        let expected = pattern[i as int];
        let actual = path[i as int];
        if takes(expected, actual) {
            if leads(expected, ':') {
                let value = Val::Text(actual);
                lemma_put_ordered(params, expected.skip(1), value);
                assert(seq![':'] + expected.skip(1) =~= expected);
                if expected.skip(1) != name {
                    lemma_get_put_other(params, expected.skip(1), value, name);
                }
                lemma_segments(
                    pattern,
                    path,
                    i + 1,
                    n,
                    put(params, expected.skip(1), value),
                    name,
                );
            } else {
                lemma_segments(pattern, path, i + 1, n, params, name);
            }
        }
    }
}

proof fn lemma_segment_bound(
    pattern: Seq<Str>,
    path: Seq<Str>,
    i: nat,
    n: nat,
    params: Rows<Val>,
    k: int,
)
    requires
        n <= pattern.len(),
        n <= path.len(),
        ordered(params),
        segments_match(pattern, path, i, n, params) is Some,
        i <= k < n,
        leads(pattern[k], ':'),
        forall|j: int| k < j < n ==> #[trigger] pattern[j] != pattern[k],
    ensures
        get(segments_match(pattern, path, i, n, params)->0, pattern[k].skip(1)) == Some(
            Val::Text(path[k]),
        ),
    decreases n - i,
{
    let expected = pattern[i as int];
    let actual = path[i as int];
    let next = if leads(expected, ':') {
        put(params, expected.skip(1), Val::Text(actual))
    } else {
        params
    };
    lemma_put_ordered(params, expected.skip(1), Val::Text(actual));
    if i < k {
        lemma_segment_bound(pattern, path, i + 1, n, next, k);
    } else {
        assert(seq![':'] + expected.skip(1) =~= expected);
        lemma_get_put_same(params, expected.skip(1), Val::Text(actual));
        lemma_segments(pattern, path, i + 1, n, next, expected.skip(1));
    }
}

/// A pattern without a star takes a path if and only if both have the same number of segments and
/// each segment is taken: a fixed one by itself, one with a colon by any that is not empty. The
/// latter binds its name to what it took.
pub proof fn law_patterns_take_paths(pattern: Str, path: Str, k: int)
    requires
        !leads(split(pattern, "/"@).last(), '*'),
        split(pattern, "/"@).len() > 0,
    ensures
        path_params(pattern, path) is Some <==> split(pattern, "/"@).len() == split(
            path,
            "/"@,
        ).len() && (forall|i: int|
            0 <= i < split(pattern, "/"@).len() ==> takes(
                #[trigger] split(pattern, "/"@)[i],
                split(path, "/"@)[i],
            )),
        path_params(pattern, path) is Some && 0 <= k < split(pattern, "/"@).len() && leads(
            split(pattern, "/"@)[k],
            ':',
        ) && (forall|j: int|
            k < j < split(pattern, "/"@).len() ==> #[trigger] split(pattern, "/"@)[j] != split(
                pattern,
                "/"@,
            )[k]) ==> get(path_params(pattern, path)->0, split(pattern, "/"@)[k].skip(1)) == Some(
            Val::Text(split(path, "/"@)[k]),
        ),
{
    let wanted = split(pattern, "/"@);
    let given = split(path, "/"@);
    let none: Rows<Val> = Seq::empty();
    if wanted.len() == given.len() {
        lemma_segments(wanted, given, 0, wanted.len(), none, Seq::empty());
        if path_params(pattern, path) is Some && 0 <= k < wanted.len() && leads(wanted[k], ':')
            && (forall|j: int| k < j < wanted.len() ==> #[trigger] wanted[j] != wanted[k]) {
            lemma_segment_bound(wanted, given, 0, wanted.len(), none, k);
        }
    }
}

/// A pattern that ends with a star binds the whole rest of a path, which is not empty, to the name
/// behind the star.
pub proof fn law_stars_take_the_rest(pattern: Str, path: Str)
    requires
        split(pattern, "/"@).len() > 0,
        leads(split(pattern, "/"@).last(), '*'),
    ensures
        ({
            let wanted = split(pattern, "/"@);
            let given = split(path, "/"@);
            let fixed = (wanted.len() - 1) as nat;
            let rest = crate::text::join(given.skip(fixed as int), "/"@);
            &&& path_params(pattern, path) is Some <==> wanted.len() <= given.len() && (forall|
                i: int,
            |
                0 <= i < fixed ==> takes(#[trigger] wanted[i], given[i])) && wanted.last().len() > 1
                && rest.len() > 0
            &&& path_params(pattern, path) is Some ==> get(
                path_params(pattern, path)->0,
                wanted.last().skip(1),
            ) == Some(Val::Text(rest))
        }),
{
    let wanted = split(pattern, "/"@);
    let given = split(path, "/"@);
    let fixed = (wanted.len() - 1) as nat;
    let none: Rows<Val> = Seq::empty();
    if wanted.len() <= given.len() {
        lemma_segments(wanted, given, 0, fixed, none, Seq::empty());
        if let Some(params) = segments_match(wanted, given, 0, fixed, none) {
            let rest = crate::text::join(given.skip(fixed as int), "/"@);
            lemma_get_put_same(params, wanted.last().skip(1), Val::Text(rest));
        }
    }
}

// ---------------------------------------------------------------------------
// Responses
// ---------------------------------------------------------------------------

/// Each status has its reason phrase.
pub proof fn law_reasons(status: i64)
    ensures
        status == 200 ==> reason(status) == "OK"@,
        status == 201 ==> reason(status) == "Created"@,
        status == 204 ==> reason(status) == "No Content"@,
        status == 400 ==> reason(status) == "Bad Request"@,
        status == 401 ==> reason(status) == "Unauthorized"@,
        status == 403 ==> reason(status) == "Forbidden"@,
        status == 404 ==> reason(status) == "Not Found"@,
        status == 405 ==> reason(status) == "Method Not Allowed"@,
        status == 413 ==> reason(status) == "Payload Too Large"@,
        status == 415 ==> reason(status) == "Unsupported Media Type"@,
        status == 422 ==> reason(status) == "Unprocessable Entity"@,
        status == 429 ==> reason(status) == "Too Many Requests"@,
        status == 500 ==> reason(status) == "Internal Server Error"@,
        status == 503 ==> reason(status) == "Service Unavailable"@,
{
}

/// What every response of a server begins with: the status, the type and the length of the body,
/// and the headers that a server always sends.
pub open spec fn opening(status: i64, content_type: Str, length: nat, id: Str) -> Str {
    "HTTP/1.1 "@ + decimal(status as int) + " "@ + reason(status) + "\r\nContent-Type: "@
        + content_type + "\r\nContent-Length: "@ + decimal(length as int)
        + "\r\nConnection: close\r\nX-Content-Type-Options: nosniff\r\nCache-Control: no-store\r\nX-Request-Id: "@
        + id + "\r\n"@
}

/// A response that reports an error has the status that was asked for, and its length is that of
/// its body, which follows an empty line.
pub proof fn law_error_responses_tell_their_length(status: i64, error: Str, id: Str)
    ensures
        exists|body: Seq<u8>|
            error_response(status, error, id) == #[trigger] encode_utf8(
                opening(status, "application/json; charset=utf-8"@, body.len(), id) + "\r\n"@,
            ) + body,
{
    let body = encode_utf8(crate::web::written(crate::web::error_document(error, id)));
    assert(error_response(status, error, id) == encode_utf8(
        opening(status, "application/json; charset=utf-8"@, body.len(), id) + "\r\n"@,
    ) + body);
}

/// The response that a handler's map describes has the map's status, 100 to 599, and carries the
/// body behind a head that tells its type and its length; without headers of the handler there is
/// nothing else in it. The body has at most 8 MiB.
pub proof fn law_responses_carry_their_body(fields: Rows<Val>, id: Str, w: World)
    requires
        get(fields, "headers"@) is None,
        value_response(Val::Dict(fields), id, w) is Ok,
    ensures
        get(fields, "status"@) is Some,
        get(fields, "status"@)->0 is Number,
        100 <= get(fields, "status"@)->0->Number_0 <= 599,
        response_body(fields, w) is Ok,
        response_body(fields, w)->Ok_0.len() <= 8_388_608,
        value_response(Val::Dict(fields), id, w)->Ok_0 == encode_utf8(
            opening(
                get(fields, "status"@)->0->Number_0,
                crate::web::content_type_of(fields),
                response_body(fields, w)->Ok_0.len(),
                id,
            ) + "\r\n"@,
        ) + response_body(fields, w)->Ok_0,
        !has_newline(crate::web::content_type_of(fields)),
{
}

/// A text body is sent as it is, nothing without a body, and never two bodies at once.
pub proof fn law_bodies_are_sent_as_they_are(fields: Rows<Val>, w: World)
    ensures
        get(fields, "body_base64"@) is None && get(fields, "body"@) is Some && get(
            fields,
            "body"@,
        )->0 is Text ==> response_body(fields, w) == Ok::<Seq<u8>, Str>(
            encode_utf8(get(fields, "body"@)->0->Text_0),
        ),
        get(fields, "body_base64"@) is None && get(fields, "body"@) is None ==> response_body(
            fields,
            w,
        ) == Ok::<Seq<u8>, Str>(Seq::empty()),
        get(fields, "body_base64"@) is Some && get(fields, "body"@) is Some ==> response_body(
            fields,
            w,
        ) is Err,
{
}

/// A value that a handler wraps as a success is answered like the value alone.
pub proof fn law_wrapped_responses_are_the_same(value: Val, id: Str, w: World)
    requires
        value is Dict,
    ensures
        result_response(Val::ResultOk(Box::new(value)), id, w) == result_response(value, id, w),
{
}

/// A server ends after the number of requests that it was told, and never if it was told none or
/// zero.
pub proof fn law_request_limits(routes: Val, port: Val, n: i64)
    requires
        n <= usize::MAX,
    ensures
        request_limit(seq![routes, port]) == Ok::<Option<usize>, Str>(None),
        n == 0 ==> request_limit(seq![routes, port, Val::Number(n)]) == Ok::<Option<usize>, Str>(
            None,
        ),
        n > 0 ==> request_limit(seq![routes, port, Val::Number(n)]) == Ok::<Option<usize>, Str>(
            Some(n as usize),
        ),
        n < 0 ==> request_limit(seq![routes, port, Val::Number(n)]) is Err,
{
}

/// A server serves 1 to 1024 routes on a port from 0 to 65535; anything else is refused before the
/// host is asked.
pub proof fn law_servers_test_their_arguments(
    routes: Seq<Val>,
    port: i64,
    funcs: Rows<Fun>,
    w: World,
    fuel: nat,
)
    requires
        routes.len() == 0 || routes.len() > 1_024 || port < 0 || port > 65_535,
    ensures
        web_serve(seq![Val::List(routes), Val::Number(port)], funcs, w, fuel).0 is Err,
        web_serve(seq![Val::List(routes), Val::Number(port)], funcs, w, fuel).1 == w,
{
}

/// A request that cannot be read is answered with 400.
pub proof fn law_unreadable_requests_are_bad(
    error: Str,
    routes: Seq<Val>,
    funcs: Rows<Fun>,
    w: World,
    fuel: nat,
)
    ensures
        ({
            let (r, w1) = crate::web::request_id(Seq::empty(), w);
            &&& r is Ok ==> answered(Err(error), routes, funcs, w, fuel) == (
                Ok::<Seq<u8>, Str>(error_response(400, "bad_request"@, r->Ok_0)),
                w1,
            )
            &&& r is Err ==> answered(Err(error), routes, funcs, w, fuel).0 is Err
        }),
{
}

/// The headers of a handler are written behind those of the server, each with its name and value.
pub proof fn law_headers_are_written(
    headers: Rows<Val>,
    i: nat,
    seen: Seq<Str>,
    done: Str,
    k: int,
)
    requires
        extra_headers(headers, i, seen, done) is Ok,
        i <= headers.len(),
    ensures
        exists|more: Str| extra_headers(headers, i, seen, done)->Ok_0 == #[trigger] (done + more),
        i <= k < headers.len() ==> headers[k].1 is Text && exists|before: Str, behind: Str|
            extra_headers(headers, i, seen, done)->Ok_0 == #[trigger] (before + (headers[k].0
                + ": "@ + headers[k].1->Text_0 + "\r\n"@) + behind),
    decreases headers.len() - i,
{
    if i < headers.len() {
        let name = headers[i as int].0;
        let value = headers[i as int].1->Text_0;
        let line = name + ": "@ + value + "\r\n"@;
        let next = done + name + ": "@ + value + "\r\n"@;
        assert(next =~= done + line);
        law_headers_are_written(headers, i + 1, seen.push(ascii_lower(name)), next, k);
        let whole = extra_headers(headers, i, seen, done)->Ok_0;
        let more = choose|more: Str| whole == #[trigger] (next + more);
        assert(whole =~= done + (line + more));
        assert(whole =~= done + line + more);
    } else {
        assert(extra_headers(headers, i, seen, done)->Ok_0 =~= done + Seq::<char>::empty());
    }
}

/// The error that a handler returns is answered with its status, 400 to 599, and only with one of
/// these.
pub proof fn law_handler_errors_have_their_status(fields: Rows<Val>, id: Str)
    requires
        result_error_response(Val::Dict(fields), id) is Ok,
    ensures
        get(fields, "status"@) is Some,
        get(fields, "status"@)->0 is Number,
        400 <= get(fields, "status"@)->0->Number_0 <= 599,
        get(fields, "code"@) is Some,
        get(fields, "code"@)->0 is Text,
        exists|body: Seq<u8>|
            result_error_response(Val::Dict(fields), id)->Ok_0 == #[trigger] encode_utf8(
                opening(
                    get(fields, "status"@)->0->Number_0,
                    "application/json; charset=utf-8"@,
                    body.len(),
                    id,
                ) + "\r\n"@,
            ) + body,
{
    let status = get(fields, "status"@)->0->Number_0;
    let code = get(fields, "code"@)->0->Text_0;
    let message = match get(fields, "message"@) {
        Some(Val::Text(message)) => message,
        _ => code,
    };
    let t = put(Seq::empty(), "error"@, crate::json::JsonM::Text(code));
    let t = put(t, "message"@, crate::json::JsonM::Text(message));
    let t = put(t, "request_id"@, crate::json::JsonM::Text(id));
    let body = encode_utf8(crate::web::written(crate::json::JsonM::Object(t)));
    assert(result_error_response(Val::Dict(fields), id)->Ok_0 == encode_utf8(
        opening(status, "application/json; charset=utf-8"@, body.len(), id) + "\r\n"@,
    ) + body);
}

/// The one response of a server for a single request tells the size of its body and ends with it.
pub proof fn law_single_responses(body: Str)
    ensures
        once_response(body) == "HTTP/1.1 200 OK\r\nContent-Length: "@ + decimal(size(body) as int)
            + "\r\nContent-Type: text/plain; charset=utf-8\r\nConnection: close\r\n\r\n"@ + body,
{
}

// ---------------------------------------------------------------------------
// Requests
// ---------------------------------------------------------------------------

/// The head of a request ends behind its first empty line.
pub proof fn law_heads_end_at_the_first_empty_line(raw: Seq<u8>, i: int, end: int)
    requires
        0 <= i,
    ensures
        head_end(raw, i) == Some(end) <==> (i <= end - 4 && is_head_end(raw, end - 4) && forall|
            k: int,
        |
            i <= k < end - 4 ==> !is_head_end(raw, k)),
    decreases raw.len() - i,
{
    if i + 4 <= raw.len() && !is_head_end(raw, i) {
        law_heads_end_at_the_first_empty_line(raw, i + 1, end);
    }
}

proof fn lemma_headers(lines: Seq<Str>, i: nat, headers: Rows<Str>, length: nat, k: int)
    requires
        ordered(headers),
        headers_read(lines, i, headers, length) is Ok,
        i <= lines.len(),
    ensures
        ordered(headers_read(lines, i, headers, length)->Ok_0.0),
        forall|name: Str| #[trigger]
            get(headers, name) is Some ==> get(
                headers_read(lines, i, headers, length)->Ok_0.0,
                name,
            ) == get(headers, name),
        i <= k < lines.len() && lines[k].len() > 0 ==> cut(lines[k], ":"@) is Some && get(
            headers_read(lines, i, headers, length)->Ok_0.0,
            ascii_lower(trim((cut(lines[k], ":"@)->0).0)),
        ) == Some(trim((cut(lines[k], ":"@)->0).1)),
        length <= 65_536 ==> headers_read(lines, i, headers, length)->Ok_0.1 <= 65_536,
        get(headers, "transfer-encoding"@) is None ==> get(
            headers_read(lines, i, headers, length)->Ok_0.0,
            "transfer-encoding"@,
        ) is None,
        (match get(headers, "content-length"@) {
            Some(text) => unsigned(text) == Some(length),
            None => length == 0,
        }) ==> (match get(headers_read(lines, i, headers, length)->Ok_0.0, "content-length"@) {
            Some(text) => unsigned(text) == Some(
                headers_read(lines, i, headers, length)->Ok_0.1,
            ),
            None => headers_read(lines, i, headers, length)->Ok_0.1 == 0,
        }),
    decreases lines.len() - i,
{
    if i < lines.len() {
        if lines[i as int].len() == 0 {
            lemma_headers(lines, i + 1, headers, length, k);
        } else {
            let pair = cut(lines[i as int], ":"@)->0;
            let name = ascii_lower(trim(pair.0));
            let value = trim(pair.1);
            let more = put(headers, name, value);
            lemma_put_ordered(headers, name, value);
            lemma_get_put_same(headers, name, value);
            assert forall|other: Str| other != name implies #[trigger] get(more, other) == get(
                headers,
                other,
            ) by {
                lemma_get_put_other(headers, name, value, other);
            }
            let n = if name == "content-length"@ {
                unsigned(value)->0
            } else {
                length
            };
            lemma_headers(lines, i + 1, more, n, k);
            assert forall|other: Str| #[trigger] get(headers, other) is Some implies get(
                headers_read(lines, i, headers, length)->Ok_0.0,
                other,
            ) == get(headers, other) by {
                assert(get(more, other) is Some);
            }
        }
    }
}

/// A request that is read has what its bytes say: the words of its first line, each header under
/// its name in small letters without the blanks around it, and as many bytes of body as its
/// `content-length` tells. The path begins with a slash, leads nowhere upwards and is at most 2048
/// bytes long; the body has at most 65536 bytes.
pub proof fn law_requests_are_what_was_sent(chunks: Seq<Seq<u8>>, k: int)
    requires
        request_read(chunks) is Ok,
    ensures
        ({
            let request = request_read(chunks)->Ok_0;
            let head = crate::web::head_read(chunks, 0, Seq::empty())->Ok_0;
            let lines = split(decode_utf8(head.raw.take(head.end)), "\r\n"@);
            let line = crate::text::words(lines[0]);
            &&& line.len() >= 3
            &&& line[2] == "HTTP/1.0"@ || line[2] == "HTTP/1.1"@
            &&& request.method == line[0]
            &&& request.path == split(line[1], "?"@)[0]
            &&& request.path.len() > 0 && request.path[0] == '/'
            &&& !includes(request.path, ".."@)
            &&& size(request.path) <= 2048
            &&& 1 <= k < lines.len() && lines[k].len() > 0 ==> cut(lines[k], ":"@) is Some && get(
                request.headers,
                ascii_lower(trim((cut(lines[k], ":"@)->0).0)),
            ) == Some(trim((cut(lines[k], ":"@)->0).1))
            &&& get(request.headers, "transfer-encoding"@) is None
            &&& exists|body: Seq<u8>|
                {
                    &&& request.body == #[trigger] decode_utf8(body)
                    &&& valid_utf8(body)
                    &&& body.len() <= 65_536
                    &&& match get(request.headers, "content-length"@) {
                        Some(text) => unsigned(text) == Some(body.len()),
                        None => body.len() == 0,
                    }
                }
        }),
{
    let head = crate::web::head_read(chunks, 0, Seq::empty())->Ok_0;
    let lines = split(decode_utf8(head.raw.take(head.end)), "\r\n"@);
    let none: Rows<Str> = Seq::empty();
    lemma_get_found(none, "content-length"@);
    lemma_get_found(none, "transfer-encoding"@);
    crate::web::lemma_split_some(decode_utf8(head.raw.take(head.end)), "\r\n"@);
    lemma_headers(lines, 1, none, 0, k);
    let (headers, length) = headers_read(lines, 1, none, 0)->Ok_0;
    let raw = body_read(chunks, head.used, head.raw, head.end, head.end + length)->Ok_0;
    lemma_head_within(chunks, 0, Seq::empty());
    lemma_body_long(chunks, head.used, head.raw, head.end, head.end + length);
    let body = raw.subrange(head.end, head.end + length);
    assert(body.len() == length);
    assert(request_read(chunks)->Ok_0.body == decode_utf8(body));
}

proof fn lemma_head_within(chunks: Seq<Seq<u8>>, i: nat, raw: Seq<u8>)
    requires
        crate::web::head_read(chunks, i, raw) is Ok,
    ensures
        0 <= crate::web::head_read(chunks, i, raw)->Ok_0.end,
        crate::web::head_read(chunks, i, raw)->Ok_0.end <= crate::web::head_read(
            chunks,
            i,
            raw,
        )->Ok_0.raw.len(),
    decreases chunks.len() - i,
{
    let more = raw + chunks[i as int];
    match head_end(more, 0) {
        Some(end) => {
            law_heads_end_at_the_first_empty_line(more, 0, end);
        },
        None => {
            lemma_head_within(chunks, i + 1, more);
        },
    }
}

proof fn lemma_body_long(chunks: Seq<Seq<u8>>, i: nat, raw: Seq<u8>, end: int, need: int)
    requires
        body_read(chunks, i, raw, end, need) is Ok,
    ensures
        body_read(chunks, i, raw, end, need)->Ok_0.len() >= need,
    decreases chunks.len() - i,
{
    if raw.len() < need {
        lemma_body_long(chunks, i + 1, raw + chunks[i as int], end, need);
    }
}

// ---------------------------------------------------------------------------
// Bodies and routes
// ---------------------------------------------------------------------------

/// A body that is a map is taken as it is, a text is read as a document of at most 65536 bytes, and
/// anything else is refused. A text that is too long or no document is answered.
pub proof fn law_bodies_are_taken(body: Val)
    ensures
        body is Dict ==> request_body(body) == Step::Next(body->Dict_0),
        body is Text && size(body->Text_0) > 65_536 ==> request_body(body) is Answer,
        body is Text && size(body->Text_0) <= 65_536 && parsed_json(body->Text_0) is Err
            ==> request_body(body) is Answer,
        body is Text && size(body->Text_0) <= 65_536 && parsed_json(body->Text_0) is Ok
            && from_json(parsed_json(body->Text_0)->Ok_0) is Ok && within_limits(
            from_json(parsed_json(body->Text_0)->Ok_0)->Ok_0,
        ) is Ok && from_json(parsed_json(body->Text_0)->Ok_0)->Ok_0 is Dict ==> request_body(body)
            == Step::Next(from_json(parsed_json(body->Text_0)->Ok_0)->Ok_0->Dict_0),
        !(body is Dict) && !(body is Text) ==> request_body(body) is Fail,
{
}

/// The path of a route is a slash, or begins with one and has no empty segment, no two dots in a
/// segment, names behind its colons, and a star only in front of a name at its end.
pub proof fn law_route_paths(path: Str, i: int)
    requires
        good_route_path(path),
        path != "/"@,
        0 <= i < split(path, "/"@).len(),
    ensures
        path[0] == '/',
        size(path) <= 2_048,
        ({
            let part = split(path, "/"@)[i];
            &&& i > 0 ==> part.len() > 0
            &&& !includes(part, ".."@)
            &&& leads(part, ':') ==> part.len() > 1
            &&& leads(part, '*') ==> part.len() > 1 && i == split(path, "/"@).len() - 1
            &&& part.contains('*') ==> part[0] == '*'
        }),
{
}

/// A route has a method, a path that is good and a handler; a route without one of them is refused.
pub proof fn law_routes_are_whole(parts: Rows<Val>)
    ensures
        route_shape(Val::Dict(parts)) is Ok <==> {
            &&& get(parts, "method"@) is Some && get(parts, "method"@)->0 is Text
            &&& get(parts, "method"@)->0->Text_0.len() > 0
            &&& made_of(get(parts, "method"@)->0->Text_0, "-"@)
            &&& get(parts, "path"@) is Some && get(parts, "path"@)->0 is Text
            &&& good_route_path(get(parts, "path"@)->0->Text_0)
            &&& get(parts, "handler"@) is Some && (get(parts, "handler"@)->0 is Callable || get(
                parts,
                "handler"@,
            )->0 is Text)
        },
{
}

/// What a server for a single request tells of it: its address, the method and the path of the
/// request, and the body that it answered with.
pub proof fn law_single_requests_are_recorded(address: Str, line: Seq<Str>, body: Str)
    requires
        line.len() >= 2,
    ensures
        once_record(address, line, body) is Dict,
        ({
            let rows = once_record(address, line, body)->Dict_0;
            &&& get(rows, "address"@) == Some(Val::Text(address))
            &&& get(rows, "method"@) == Some(Val::Text(line[0]))
            &&& get(rows, "path"@) == Some(Val::Text(line[1]))
            &&& get(rows, "body"@) == Some(Val::Text(body))
        }),
{
    reveal_strlit("address");
    reveal_strlit("method");
    reveal_strlit("path");
    reveal_strlit("body");
    assert("address"@.len() == 7);
    assert("method"@.len() == 6);
    assert("path"@.len() == 4 && "path"@[0] == 'p');
    assert("body"@.len() == 4 && "body"@[0] == 'b');
    let none: Rows<Val> = Seq::empty();
    let t1 = put(none, "address"@, Val::Text(address));
    lemma_put_ordered(none, "address"@, Val::Text(address));
    lemma_get_put_same(none, "address"@, Val::Text(address));
    let t2 = put(t1, "method"@, Val::Text(line[0]));
    lemma_put_ordered(t1, "method"@, Val::Text(line[0]));
    lemma_get_put_same(t1, "method"@, Val::Text(line[0]));
    lemma_get_put_other(t1, "method"@, Val::Text(line[0]), "address"@);
    let t3 = put(t2, "path"@, Val::Text(line[1]));
    lemma_put_ordered(t2, "path"@, Val::Text(line[1]));
    lemma_get_put_same(t2, "path"@, Val::Text(line[1]));
    lemma_get_put_other(t2, "path"@, Val::Text(line[1]), "address"@);
    lemma_get_put_other(t2, "path"@, Val::Text(line[1]), "method"@);
    let t4 = put(t3, "body"@, Val::Text(body));
    lemma_put_ordered(t3, "body"@, Val::Text(body));
    lemma_get_put_same(t3, "body"@, Val::Text(body));
    lemma_get_put_other(t3, "body"@, Val::Text(body), "address"@);
    lemma_get_put_other(t3, "body"@, Val::Text(body), "method"@);
    lemma_get_put_other(t3, "body"@, Val::Text(body), "path"@);
}

/// A server for a single request takes a port from 0 to 65535 and a text of at most 8 MiB, and
/// refuses anything else before the host is asked.
pub proof fn law_single_servers_test_their_arguments(port: i64, body: Str, w: World)
    requires
        port < 0 || port > 65_535 || size(body) > 8_388_608,
    ensures
        serve_once(seq![Val::Number(port), Val::Text(body)], w).0 is Err,
        serve_once(seq![Val::Number(port), Val::Text(body)], w).1 == w,
{
}

/// The first chunks of what was received, one behind the other.
pub open spec fn received(chunks: Seq<Seq<u8>>, n: nat) -> Seq<u8>
    decreases n,
{
    if n == 0 {
        Seq::empty()
    } else {
        received(chunks, (n - 1) as nat) + chunks[n - 1]
    }
}

proof fn lemma_received(chunks: Seq<Seq<u8>>, n: nat)
    requires
        n <= chunks.len(),
        forall|j: int| 0 <= j < n ==> (#[trigger] chunks[j]).len() > 0,
        forall|j: nat|
            0 < j <= n ==> head_end(#[trigger] received(chunks, j), 0) is None && received(
                chunks,
                j,
            ).len() <= 65_536,
    ensures
        once_read(chunks, 0, Seq::empty()) == once_read(chunks, n, received(chunks, n)),
    decreases n,
{
    if n > 0 {
        let m = (n - 1) as nat;
        lemma_received(chunks, m);
        assert(chunks[m as int].len() > 0);
        assert(received(chunks, n) == received(chunks, m) + chunks[m as int]);
        assert(head_end(received(chunks, n), 0) is None);
    }
}

/// A server for a single request takes what it received, chunk by chunk, until the head has ended
/// or no more comes, and gives up once it holds more than 65536 bytes without the end of a head.
pub proof fn law_single_requests_are_read(chunks: Seq<Seq<u8>>, n: nat)
    requires
        n <= chunks.len(),
        forall|j: int| 0 <= j < n ==> (#[trigger] chunks[j]).len() > 0,
        forall|j: nat|
            0 < j < n ==> head_end(#[trigger] received(chunks, j), 0) is None && received(
                chunks,
                j,
            ).len() <= 65_536,
    ensures
        n > 0 && head_end(received(chunks, n), 0) is Some ==> once_read(chunks, 0, Seq::empty())
            == Ok::<Seq<u8>, Str>(received(chunks, n)),
        n > 0 && head_end(received(chunks, n), 0) is None && received(chunks, n).len() > 65_536
            ==> once_read(chunks, 0, Seq::empty()) is Err,
        (n > 0 ==> head_end(received(chunks, n), 0) is None && received(chunks, n).len() <= 65_536)
            && (n == chunks.len() || chunks[n as int].len() == 0) ==> once_read(
            chunks,
            0,
            Seq::empty(),
        ) == Ok::<Seq<u8>, Str>(received(chunks, n)),
{
    if n > 0 {
        let m = (n - 1) as nat;
        lemma_received(chunks, m);
        assert(chunks[m as int].len() > 0);
        assert(received(chunks, n) == received(chunks, m) + chunks[m as int]);
        if head_end(received(chunks, n), 0) is None && received(chunks, n).len() <= 65_536 {
            lemma_received(chunks, n);
        }
    }
}

/// A single request is one in UTF-8 whose first line has at least three words, the third of which
/// is one of the two versions.
pub proof fn law_single_requests_begin_with_three_words(raw: Seq<u8>)
    ensures
        ({
            let lines = lines_of(decode_utf8(raw));
            let first = words(
                if lines.len() > 0 {
                    lines[0]
                } else {
                    Seq::empty()
                },
            );
            &&& once_line(raw) is Ok <==> valid_utf8(raw) && first.len() >= 3 && (first[2]
                == "HTTP/1.0"@ || first[2] == "HTTP/1.1"@)
            &&& once_line(raw) is Ok ==> once_line(raw)->Ok_0 == first
        }),
{
}

/// A server for a single request hands the host the port, then the response with the given body, and
/// returns the record of the request; it answers nothing that is no request.
pub proof fn law_single_servers_answer_requests(port: i64, body: Str, w: World)
    requires
        0 <= port <= 65_535,
        size(body) <= 8_388_608,
    ensures
        ({
            let args = seq![Val::Number(port), Val::Text(body)];
            let (reply, w1) = ask(w, "http_accept_once"@, seq![Val::Number(port)]);
            let (sent, w2) = ask(w1, "http_reply_once"@, seq![Val::Text(once_response(body))]);
            &&& reply is Err ==> serve_once(args, w) == (Err::<Val, Str>(reply->Err_0), w1)
            &&& once_accepted(reply) matches Ok((address, chunks)) ==> {
                &&& once_read(chunks, 0, Seq::empty()) is Err ==> serve_once(args, w).0 is Err
                    && serve_once(args, w).1 == w1
                &&& once_read(chunks, 0, Seq::empty()) matches Ok(raw) ==> {
                    &&& once_line(raw) is Err ==> serve_once(args, w).0 is Err && serve_once(
                        args,
                        w,
                    ).1 == w1
                    &&& once_line(raw) matches Ok(line) ==> serve_once(args, w).1 == w2 && (
                    if sent is Ok {
                        serve_once(args, w).0 == Ok::<Val, Str>(once_record(address, line, body))
                    } else {
                        serve_once(args, w).0 == Err::<Val, Str>(sent->Err_0)
                    })
                }
            }
        }),
{
}

} // verus!
