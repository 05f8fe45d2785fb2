//! Validation of request bodies against a schema, and of route tables.

use crate::ast::views;
use crate::json::{from_json, json_to_value};
use crate::outside::{parse_json, parsed_json};
use crate::records::{dict, err_value, ok_value, text_value, with};
use crate::table::{get, put, Rows, Table};
use crate::text::{byte_len, chars_of, contains, decimal, includes, is_blank_text, is_made_of, join2,
    join3, join4, join5, made_of, same, size, split, split_text, text_holds, texts, after, Str};
use crate::value::{copy_table, fail, kind_name, lemma_value_view, told, told_unit,
    value_type_name, within_limits, Fun, Functions, Val, ZapValue};
use vstd::prelude::*;

verus! {

pub const MAX_HTTP_REQUEST_BYTES: usize = 65_536;

pub const MAX_WEB_SCHEMA_FIELDS: usize = 64;

pub const MAX_WEB_FIELD_NAME_BYTES: usize = 128;

pub const MAX_WEB_FIELD_TEXT_BYTES: usize = 65_536;

pub const MAX_STATIC_ASSET_PATH_BYTES: usize = 2_048;

// ---------------------------------------------------------------------------
// Request bodies
// ---------------------------------------------------------------------------

/// The answer to a request that does not meet its schema.
pub open spec fn validation_error(code: Str, message: Str, field: Option<Str>) -> Val {
    let t = put(Seq::empty(), "status"@, Val::Number(400));
    let t = put(t, "code"@, Val::Text(code));
    let t = put(t, "message"@, Val::Text(message));
    let t = match field {
        Some(name) => put(t, "field"@, Val::Text(name)),
        None => t,
    };
    Val::ResultErr(Box::new(Val::Dict(t)))
}

pub open spec fn opt_str(field: Option<&str>) -> Option<Str> {
    match field {
        Some(name) => Some(name@),
        None => None,
    }
}

pub fn web_validation_error(code: &str, message: &str, field: Option<&str>) -> (r: ZapValue)
    ensures
        r@ == validation_error(code@, message@, opt_str(field)),
{
    let t = with(Table::new(), "status", ZapValue::Number(400));
    let t = with(t, "code", text_value(code));
    let t = with(t, "message", text_value(message));
    let t = match field {
        Some(name) => with(t, "field", text_value(name)),
        None => t,
    };
    err_value(dict(t))
}

/// A step of the validation: it goes on with a value, or it answers, or it fails.
pub enum Step<T> {
    Next(T),
    Answer(Val),
    Fail(Str),
}

/// The fields of a request body.
pub open spec fn request_body(body: Val) -> Step<Rows<Val>> {
    match body {
        Val::Dict(rows) => Step::Next(rows),
        Val::Text(text) => if size(text) > MAX_HTTP_REQUEST_BYTES {
            Step::Answer(
                validation_error(
                    "body_too_large"@,
                    "request JSON body exceeds the 65536 byte limit"@,
                    None,
                ),
            )
        } else {
            match parsed_json(text) {
                Err(_) => Step::Answer(
                    validation_error("invalid_json"@, "request body is not valid JSON"@, None),
                ),
                Ok(document) => match from_json(document) {
                    Err(_) => Step::Answer(
                        validation_error(
                            "invalid_json"@,
                            "request body could not be represented safely"@,
                            None,
                        ),
                    ),
                    Ok(value) => match within_limits(value) {
                        Err(_) => Step::Fail(
                            "web_validate_request request JSON exceeds the runtime value limits"@,
                        ),
                        Ok(_) => match value {
                            Val::Dict(rows) => Step::Next(rows),
                            _ => Step::Answer(
                                validation_error(
                                    "invalid_body"@,
                                    "request JSON body must be an object"@,
                                    None,
                                ),
                            ),
                        },
                    },
                },
            }
        },
        _ => Step::Fail("web_validate_request expects a body map or JSON text and schema map"@),
    }
}

pub open spec fn good_schema_name(name: Str) -> bool {
    0 < size(name) <= MAX_WEB_FIELD_NAME_BYTES && made_of(name, "_"@)
}

/// The first name in a schema, from entry `i` on, that is no identifier.
pub open spec fn bad_schema_name(schema: Rows<Val>, i: nat) -> Option<Str>
    decreases schema.len() - i,
{
    if i >= schema.len() {
        None
    } else if !good_schema_name(schema[i as int].0) {
        Some(schema[i as int].0)
    } else {
        bad_schema_name(schema, i + 1)
    }
}

/// The first field of a body, from entry `i` on, that the schema does not know.
pub open spec fn unknown_field(body: Rows<Val>, schema: Rows<Val>, i: nat) -> Option<Str>
    decreases body.len() - i,
{
    if i >= body.len() {
        None
    } else if get(schema, body[i as int].0) is None {
        Some(body[i as int].0)
    } else {
        unknown_field(body, schema, i + 1)
    }
}

pub open spec fn known_option(name: Str) -> bool {
    name == "type"@ || name == "required"@ || name == "max_len"@
}

pub open spec fn known_options(options: Rows<Val>) -> bool {
    forall|i: int| 0 <= i < options.len() ==> known_option(#[trigger] options[i].0)
}

pub open spec fn known_type(name: Str) -> bool {
    name == "text"@ || name == "number"@ || name == "bool"@ || name == "map"@ || name == "list"@
        || name == "none"@
}

/// What a schema asks of a field: its type, whether it must be there, how long it may be.
pub struct Rule {
    pub expected: Str,
    pub required: bool,
    pub max_len: Option<int>,
}

/// The rule of a schema entry, or what is wrong with the entry.
pub open spec fn rule_of(entry: Val) -> Result<Rule, Str> {
    match entry {
        Val::Text(expected) => Ok(Rule { expected, required: true, max_len: None }),
        Val::Dict(options) => if !known_options(options) {
            Err("schema options are limited to type, required, and max_len"@)
        } else {
            match get(options, "type"@) {
                Some(Val::Text(expected)) => match get(options, "required"@) {
                    Some(Val::Bool(_)) | None => {
                        let required = match get(options, "required"@) {
                            Some(Val::Bool(flag)) => flag,
                            _ => true,
                        };
                        match get(options, "max_len"@) {
                            None => Ok(Rule { expected, required, max_len: None }),
                            Some(Val::Number(n)) => if 0 <= n <= MAX_WEB_FIELD_TEXT_BYTES {
                                Ok(Rule { expected, required, max_len: Some(n as int) })
                            } else {
                                Err("schema max_len must be a number from 0 to 65536"@)
                            },
                            Some(_) => Err("schema max_len must be a number from 0 to 65536"@),
                        }
                    },
                    Some(_) => Err("schema required flag must be bool"@),
                },
                _ => Err("schema field type must be text"@),
            }
        },
        _ => Err("schema fields must be type text or an options map"@),
    }
}

pub open spec fn checked_rule(entry: Val) -> Result<Rule, Str> {
    match rule_of(entry) {
        Err(error) => Err(error),
        Ok(rule) => if !known_type(rule.expected) {
            Err("schema type must be text, number, bool, map, list, or none"@)
        } else if rule.max_len is Some && rule.expected != "text"@ {
            Err("schema max_len is only valid for text fields"@)
        } else {
            Ok(rule)
        },
    }
}

/// What becomes of a field: it is taken over, or left out, or the request is answered.
pub open spec fn field_outcome(field: Str, entry: Val, body: Rows<Val>) -> Result<Option<Val>, Val> {
    match checked_rule(entry) {
        Err(message) => Err(validation_error("invalid_schema"@, message, Some(field))),
        Ok(rule) => match get(body, field) {
            None => if rule.required {
                Err(
                    validation_error(
                        "missing_field"@,
                        "required request field is missing"@,
                        Some(field),
                    ),
                )
            } else {
                Ok(None)
            },
            Some(value) => if kind_name(value) != rule.expected {
                Err(
                    validation_error(
                        "invalid_type"@,
                        "request field has type "@ + kind_name(value) + ", expected "@
                            + rule.expected,
                        Some(field),
                    ),
                )
            } else {
                match (rule.max_len, value) {
                    (Some(max), Val::Text(text)) => if size(text) > max {
                        Err(
                            validation_error(
                                "value_too_long"@,
                                "request text field exceeds the schema max_len"@,
                                Some(field),
                            ),
                        )
                    } else {
                        Ok(Some(value))
                    },
                    _ => Ok(Some(value)),
                }
            },
        },
    }
}

/// The answer of the schema entries from `i` on; `done` holds the fields that were taken over.
pub open spec fn fields_outcome(
    schema: Rows<Val>,
    i: nat,
    body: Rows<Val>,
    done: Rows<Val>,
) -> Val
    decreases schema.len() - i,
{
    if i >= schema.len() {
        Val::ResultOk(Box::new(Val::Dict(done)))
    } else {
        match field_outcome(schema[i as int].0, schema[i as int].1, body) {
            Err(answer) => answer,
            Ok(None) => fields_outcome(schema, i + 1, body, done),
            Ok(Some(value)) => fields_outcome(
                schema,
                i + 1,
                body,
                put(done, schema[i as int].0, value),
            ),
        }
    }
}

/// The validated fields of a request, or an error value that says what is wrong with it.
pub open spec fn validated_request(args: Seq<Val>) -> Result<Val, Str> {
    if args.len() != 2 {
        Err("web_validate_request expects body and schema, got "@ + decimal(args.len() as int)
            + " arguments"@)
    } else {
        match request_body(args[0]) {
            Step::Fail(error) => Err(error),
            Step::Answer(answer) => Ok(answer),
            Step::Next(body) => match args[1] {
                Val::Dict(schema) => if schema.len() == 0 || schema.len()
                    > MAX_WEB_SCHEMA_FIELDS {
                    Ok(
                        validation_error(
                            "invalid_schema"@,
                            "schema must contain between 1 and 64 fields"@,
                            None,
                        ),
                    )
                } else {
                    match bad_schema_name(schema, 0) {
                        Some(name) => Ok(
                            validation_error(
                                "invalid_schema"@,
                                "schema field names must be non-empty ASCII identifiers no longer than 128 bytes"@,
                                Some(name),
                            ),
                        ),
                        None => match unknown_field(body, schema, 0) {
                            Some(name) => Ok(
                                validation_error(
                                    "unknown_field"@,
                                    "request contains a field not declared by the schema"@,
                                    Some(name),
                                ),
                            ),
                            None => Ok(fields_outcome(schema, 0, body, Seq::empty())),
                        },
                    }
                },
                _ => Err("web_validate_request expects a body map and schema map"@),
            },
        }
    }
}

/// The executable form of a step.
enum Stage {
    Next(Table<ZapValue>),
    Answer(ZapValue),
    Fail(String),
}

spec fn stage_view(s: Stage) -> Step<Rows<Val>> {
    match s {
        Stage::Next(table) => Step::Next(table@),
        Stage::Answer(value) => Step::Answer(value@),
        Stage::Fail(error) => Step::Fail(error@),
    }
}

fn read_body(body: &ZapValue) -> (r: Stage)
    ensures
        stage_view(r) == request_body(body@),
{
    broadcast use lemma_value_view;

    match body {
        ZapValue::Dict(table) => Stage::Next(copy_table(table)),
        ZapValue::Text(text) => {
            if byte_len(text.as_str()) > MAX_HTTP_REQUEST_BYTES {
                return Stage::Answer(
                    web_validation_error(
                        "body_too_large",
                        "request JSON body exceeds the 65536 byte limit",
                        None,
                    ),
                );
            }
            let document = match parse_json(text.as_str()) {
                Ok(document) => document,
                Err(_) => {
                    return Stage::Answer(
                        web_validation_error(
                            "invalid_json",
                            "request body is not valid JSON",
                            None,
                        ),
                    );
                },
            };
            let value = match json_to_value(&document) {
                Ok(value) => value,
                Err(_) => {
                    return Stage::Answer(
                        web_validation_error(
                            "invalid_json",
                            "request body could not be represented safely",
                            None,
                        ),
                    );
                },
            };
            if value.validate_memory_limits().is_err() {
                return Stage::Fail(
                    "web_validate_request request JSON exceeds the runtime value limits".to_owned(),
                );
            }
            match value {
                ZapValue::Dict(table) => Stage::Next(table),
                _ => Stage::Answer(
                    web_validation_error(
                        "invalid_body",
                        "request JSON body must be an object",
                        None,
                    ),
                ),
            }
        },
        _ => Stage::Fail(
            "web_validate_request expects a body map or JSON text and schema map".to_owned(),
        ),
    }
}

fn find_bad_name(schema: &Table<ZapValue>) -> (r: Option<String>)
    ensures
        crate::ast::opt_text(r) == bad_schema_name(schema@, 0),
{
    let mut i: usize = 0;
    while i < schema.entries.len()
        invariant
            i <= schema.entries@.len(),
            bad_schema_name(schema@, 0) == bad_schema_name(schema@, i as nat),
        decreases schema.entries.len() - i,
    {
        let name = schema.entries[i].0.as_str();
        let n: usize = byte_len(name);
        if n == 0 || n > MAX_WEB_FIELD_NAME_BYTES || !is_made_of(name, "_") {
            return Some(schema.entries[i].0.clone());
        }
        i += 1;
    }
    None
}

fn find_unknown_field(body: &Table<ZapValue>, schema: &Table<ZapValue>) -> (r: Option<String>)
    ensures
        crate::ast::opt_text(r) == unknown_field(body@, schema@, 0),
{
    let mut i: usize = 0;
    while i < body.entries.len()
        invariant
            i <= body.entries@.len(),
            unknown_field(body@, schema@, 0) == unknown_field(body@, schema@, i as nat),
        decreases body.entries.len() - i,
    {
        if !schema.holds(body.entries[i].0.as_str()) {
            return Some(body.entries[i].0.clone());
        }
        i += 1;
    }
    None
}

struct FieldRule {
    expected: String,
    required: bool,
    max_len: Option<i64>,
}

spec fn told_rule(r: Result<FieldRule, String>) -> Result<Rule, Str> {
    match r {
        Ok(rule) => Ok(
            Rule {
                expected: rule.expected@,
                required: rule.required,
                max_len: match rule.max_len {
                    Some(n) => Some(n as int),
                    None => None,
                },
            },
        ),
        Err(error) => Err(error@),
    }
}

fn options_known(options: &Table<ZapValue>) -> (r: bool)
    ensures
        r == known_options(options@),
{
    let mut i: usize = 0;
    while i < options.entries.len()
        invariant
            i <= options.entries@.len(),
            forall|j: int| 0 <= j < i ==> known_option(#[trigger] options@[j].0),
        decreases options.entries.len() - i,
    {
        let name = options.entries[i].0.as_str();
        assert(options@[i as int].0 == name@);
        if !(same(name, "type") || same(name, "required") || same(name, "max_len")) {
            assert(!known_option(options@[i as int].0));
            return false;
        }
        i += 1;
    }
    true
}

fn read_rule(entry: &ZapValue) -> (r: Result<FieldRule, String>)
    ensures
        told_rule(r) == rule_of(entry@),
{
    broadcast use lemma_value_view;

    match entry {
        ZapValue::Text(expected) => Ok(
            FieldRule { expected: expected.clone(), required: true, max_len: None },
        ),
        ZapValue::Dict(options) => {
            if !options_known(options) {
                return fail("schema options are limited to type, required, and max_len");
            }
            let expected = match options.find("type") {
                Some(ZapValue::Text(expected)) => expected.clone(),
                _ => {
                    return fail("schema field type must be text");
                },
            };
            let required = match options.find("required") {
                None => true,
                Some(ZapValue::Bool(flag)) => *flag,
                Some(_) => {
                    return fail("schema required flag must be bool");
                },
            };
            match options.find("max_len") {
                None => Ok(FieldRule { expected, required, max_len: None }),
                Some(ZapValue::Number(n)) => if 0 <= *n && *n <= MAX_WEB_FIELD_TEXT_BYTES as i64 {
                    Ok(FieldRule { expected, required, max_len: Some(*n) })
                } else {
                    fail("schema max_len must be a number from 0 to 65536")
                },
                Some(_) => fail("schema max_len must be a number from 0 to 65536"),
            }
        },
        _ => fail("schema fields must be type text or an options map"),
    }
}

fn read_checked_rule(entry: &ZapValue) -> (r: Result<FieldRule, String>)
    ensures
        told_rule(r) == checked_rule(entry@),
{
    match read_rule(entry) {
        Err(error) => Err(error),
        Ok(rule) => {
            let expected = rule.expected.as_str();
            if !(same(expected, "text") || same(expected, "number") || same(expected, "bool")
                || same(expected, "map") || same(expected, "list") || same(expected, "none")) {
                return fail("schema type must be text, number, bool, map, list, or none");
            }
            if rule.max_len.is_some() && !same(expected, "text") {
                return fail("schema max_len is only valid for text fields");
            }
            Ok(rule)
        },
    }
}

spec fn told_outcome(r: Result<Option<ZapValue>, ZapValue>) -> Result<Option<Val>, Val> {
    match r {
        Ok(Some(value)) => Ok(Some(value@)),
        Ok(None) => Ok(None),
        Err(answer) => Err(answer@),
    }
}

fn judge_field(field: &str, entry: &ZapValue, body: &Table<ZapValue>) -> (r: Result<
    Option<ZapValue>,
    ZapValue,
>)
    ensures
        told_outcome(r) == field_outcome(field@, entry@, body@),
{
    let rule = match read_checked_rule(entry) {
        Ok(rule) => rule,
        Err(message) => {
            return Err(
                web_validation_error("invalid_schema", message.as_str(), Some(field)),
            );
        },
    };
    match body.find(field) {
        None => if rule.required {
            Err(
                web_validation_error(
                    "missing_field",
                    "required request field is missing",
                    Some(field),
                ),
            )
        } else {
            Ok(None)
        },
        Some(value) => {
            let actual = value_type_name(value);
            if !same(actual, rule.expected.as_str()) {
                let message = join4(
                    "request field has type ",
                    actual,
                    ", expected ",
                    rule.expected.as_str(),
                );
                return Err(web_validation_error("invalid_type", message.as_str(), Some(field)));
            }
            match (rule.max_len, value) {
                (Some(max), ZapValue::Text(text)) => if byte_len(text.as_str()) as u64
                    > max as u64 {
                    Err(
                        web_validation_error(
                            "value_too_long",
                            "request text field exceeds the schema max_len",
                            Some(field),
                        ),
                    )
                } else {
                    Ok(Some(value.copy()))
                },
                _ => Ok(Some(value.copy())),
            }
        },
    }
}

/// Validates a request body against a schema.
pub fn web_validate_request(args: &Vec<ZapValue>) -> (r: Result<ZapValue, String>)
    ensures
        told(r) == validated_request(views(args@)),
{
    broadcast use lemma_value_view;

    if args.len() != 2 {
        return Err(
            join3(
                "web_validate_request expects body and schema, got ",
                crate::text::length_text(args.len()).as_str(),
                " arguments",
            ),
        );
    }
    let body = match read_body(&args[0]) {
        Stage::Fail(error) => {
            return Err(error);
        },
        Stage::Answer(answer) => {
            return Ok(answer);
        },
        Stage::Next(body) => body,
    };
    let schema = match &args[1] {
        ZapValue::Dict(schema) => schema,
        _ => {
            return fail("web_validate_request expects a body map and schema map");
        },
    };
    if schema.len() == 0 || schema.len() > MAX_WEB_SCHEMA_FIELDS {
        return Ok(
            web_validation_error(
                "invalid_schema",
                "schema must contain between 1 and 64 fields",
                None,
            ),
        );
    }
    if let Some(name) = find_bad_name(schema) {
        return Ok(
            web_validation_error(
                "invalid_schema",
                "schema field names must be non-empty ASCII identifiers no longer than 128 bytes",
                Some(name.as_str()),
            ),
        );
    }
    if let Some(name) = find_unknown_field(&body, schema) {
        return Ok(
            web_validation_error(
                "unknown_field",
                "request contains a field not declared by the schema",
                Some(name.as_str()),
            ),
        );
    }
    let mut done: Table<ZapValue> = Table::new();
    let mut i: usize = 0;
    while i < schema.entries.len()
        invariant
            i <= schema.entries@.len(),
            validated_request(views(args@)) == Ok::<Val, Str>(
                fields_outcome(schema@, 0, body@, Seq::empty()),
            ),
            fields_outcome(schema@, 0, body@, Seq::empty()) == fields_outcome(
                schema@,
                i as nat,
                body@,
                done@,
            ),
        decreases schema.entries.len() - i,
    {
        let field = schema.entries[i].0.as_str();
        match judge_field(field, &schema.entries[i].1, &body) {
            Err(answer) => {
                return Ok(answer);
            },
            Ok(None) => {},
            Ok(Some(value)) => {
                done.insert(schema.entries[i].0.clone(), value);
            },
        }
        i += 1;
    }
    Ok(ok_value(dict(done)))
}

// ---------------------------------------------------------------------------
// Routes
// ---------------------------------------------------------------------------

pub open spec fn leads(s: Str, c: char) -> bool {
    s.len() > 0 && s[0] == c
}

/// Whether a segment may stand at a place of a route path.
pub open spec fn good_segment(part: Str, index: int, count: int) -> bool {
    &&& part.len() > 0 || index == 0
    &&& leads(part, ':') ==> part.skip(1).len() > 0 && !part.skip(1).contains(':') && !part.skip(
        1,
    ).contains('*')
    &&& leads(part, '*') ==> index == count - 1 && part.skip(1).len() > 0 && !part.skip(
        1,
    ).contains(':')
    &&& !includes(part, ".."@)
    &&& part.contains('*') ==> leads(part, '*')
}

/// Whether a text is a safe absolute route path.
pub open spec fn good_route_path(value: Str) -> bool {
    value == "/"@ || (leads(value, '/') && size(value) <= MAX_STATIC_ASSET_PATH_BYTES && forall|
        i: int,
    |
        0 <= i < split(value, "/"@).len() ==> good_segment(
            #[trigger] split(value, "/"@)[i],
            i,
            split(value, "/"@).len() as int,
        ))
}

fn leads_with(s: &str, c: char) -> (r: bool)
    ensures
        r == leads(s@, c),
{
    let v = chars_of(s);
    v.len() > 0 && v[0] == c
}

fn segment_is_good(part: &str, index: usize, count: usize) -> (r: bool)
    requires
        index < count,
    ensures
        r == good_segment(part@, index as int, count as int),
{
    if is_blank_text(part) && index != 0 {
        return false;
    }
    if leads_with(part, ':') {
        let name = after(part, 1);
        if is_blank_text(name.as_str()) || text_holds(name.as_str(), ':') || text_holds(
            name.as_str(),
            '*',
        ) {
            return false;
        }
    }
    if leads_with(part, '*') {
        let name = after(part, 1);
        if index != count - 1 || is_blank_text(name.as_str()) || text_holds(name.as_str(), ':') {
            return false;
        }
    }
    !contains(part, "..") && (!text_holds(part, '*') || leads_with(part, '*'))
}

pub fn web_route_path_is_valid(value: &str) -> (r: bool)
    ensures
        r == good_route_path(value@),
{
    if same(value, "/") {
        return true;
    }
    if !leads_with(value, '/') || byte_len(value) > MAX_STATIC_ASSET_PATH_BYTES {
        return false;
    }
    let parts = split_text(value, "/");
    assert(texts(parts@).len() == parts@.len());
    let mut i: usize = 0;
    while i < parts.len()
        invariant
            i <= parts@.len(),
            texts(parts@) == split(value@, "/"@),
            value@ != "/"@,
            leads(value@, '/'),
            size(value@) <= MAX_STATIC_ASSET_PATH_BYTES,
            forall|k: int|
                0 <= k < i ==> good_segment(
                    #[trigger] split(value@, "/"@)[k],
                    k,
                    parts@.len() as int,
                ),
        decreases parts.len() - i,
    {
        assert(split(value@, "/"@)[i as int] == parts@[i as int]@);
        if !segment_is_good(parts[i].as_str(), i, parts.len()) {
            return false;
        }
        i += 1;
    }
    true
}

/// What is wrong with the shape of a route, if anything is.
pub open spec fn route_shape(route: Val) -> Result<(), Str> {
    match route {
        Val::Dict(parts) => match get(parts, "method"@) {
            Some(Val::Text(method)) => if method.len() == 0 || !made_of(method, "-"@) {
                Err("Web route method must be a valid non-empty token"@)
            } else {
                match get(parts, "path"@) {
                    Some(Val::Text(path)) => if !good_route_path(path) {
                        Err("Web route path must be a safe absolute path"@)
                    } else {
                        match get(parts, "handler"@) {
                            Some(Val::Callable(_)) => Ok(()),
                            Some(Val::Text(_)) => Ok(()),
                            _ => Err("Web route handler must be a function or function name"@),
                        }
                    },
                    _ => Err("Web route path must be a safe absolute path"@),
                }
            },
            _ => Err("Web route method must be a valid non-empty token"@),
        },
        _ => Err("Web route entries must be maps"@),
    }
}

/// The method and the path of a route.
pub open spec fn registration(route: Val) -> (Str, Str) {
    match route {
        Val::Dict(parts) => match (get(parts, "method"@), get(parts, "path"@)) {
            (Some(Val::Text(method)), Some(Val::Text(path))) => (method, path),
            _ => (Seq::empty(), Seq::empty()),
        },
        _ => (Seq::empty(), Seq::empty()),
    }
}

/// Whether one of the first `n` routes has a registration.
pub open spec fn registered(routes: Seq<Val>, n: int, r: (Str, Str)) -> bool {
    exists|k: int| 0 <= k < n && registration(#[trigger] routes[k]) == r
}

/// Tests the routes from number `i` on: each has a good shape, none is registered twice.
pub open spec fn route_table(routes: Seq<Val>, i: nat) -> Result<(), Str>
    decreases routes.len() - i,
{
    if i >= routes.len() {
        Ok(())
    } else {
        match route_shape(routes[i as int]) {
            Err(error) => Err(error),
            Ok(_) => {
                let r = registration(routes[i as int]);
                if registered(routes, i as int, r) {
                    Err("Web route conflict: "@ + r.0 + " "@ + r.1
                        + " is registered more than once"@)
                } else {
                    route_table(routes, i + 1)
                }
            },
        }
    }
}

/// The first handler, from route `i` on, that names no function.
pub open spec fn missing_handler(routes: Seq<Val>, funcs: Rows<Fun>, i: nat) -> Option<Str>
    decreases routes.len() - i,
{
    if i >= routes.len() {
        None
    } else {
        match routes[i as int] {
            Val::Dict(parts) => match get(parts, "handler"@) {
                Some(Val::Text(name)) => if get(funcs, name) is None {
                    Some(name)
                } else {
                    missing_handler(routes, funcs, i + 1)
                },
                _ => missing_handler(routes, funcs, i + 1),
            },
            _ => missing_handler(routes, funcs, i + 1),
        }
    }
}

pub open spec fn routes_checked(routes: Seq<Val>, funcs: Rows<Fun>) -> Result<(), Str> {
    match route_table(routes, 0) {
        Err(error) => Err(error),
        Ok(_) => match missing_handler(routes, funcs, 0) {
            Some(name) => Err("web_serve handler not found: "@ + name),
            None => Ok(()),
        },
    }
}

pub fn web_validate_route_shape(route: &ZapValue) -> (r: Result<(), String>)
    ensures
        told_unit(r) == route_shape(route@),
{
    broadcast use lemma_value_view;

    let parts = match route {
        ZapValue::Dict(parts) => parts,
        _ => {
            return fail("Web route entries must be maps");
        },
    };
    match parts.find("method") {
        Some(ZapValue::Text(method)) => {
            if is_blank_text(method.as_str()) || !is_made_of(method.as_str(), "-") {
                return fail("Web route method must be a valid non-empty token");
            }
        },
        _ => {
            return fail("Web route method must be a valid non-empty token");
        },
    }
    match parts.find("path") {
        Some(ZapValue::Text(path)) => {
            if !web_route_path_is_valid(path.as_str()) {
                return fail("Web route path must be a safe absolute path");
            }
        },
        _ => {
            return fail("Web route path must be a safe absolute path");
        },
    }
    match parts.find("handler") {
        Some(ZapValue::Callable(_)) => Ok(()),
        Some(ZapValue::Text(_)) => Ok(()),
        _ => fail("Web route handler must be a function or function name"),
    }
}

fn read_registration(route: &ZapValue) -> (r: (String, String))
    ensures
        (r.0@, r.1@) == registration(route@),
{
    broadcast use lemma_value_view;

    let nothing = String::new();
    assert(nothing@ =~= Seq::<char>::empty());
    match route {
        ZapValue::Dict(parts) => match (parts.find("method"), parts.find("path")) {
            (Some(ZapValue::Text(method)), Some(ZapValue::Text(path))) => (
                method.clone(),
                path.clone(),
            ),
            _ => (nothing.clone(), nothing),
        },
        _ => (nothing.clone(), nothing),
    }
}

/// Validates the shape of each route and that no method and path are registered twice.
pub fn web_validate_route_table(routes: &Vec<ZapValue>) -> (r: Result<(), String>)
    ensures
        told_unit(r) == route_table(views(routes@), 0),
{
    let mut seen: Vec<(String, String)> = Vec::new();
    let mut i: usize = 0;
    while i < routes.len()
        invariant
            i <= routes@.len(),
            seen@.len() == i,
            forall|k: int|
                0 <= k < i ==> registration(#[trigger] views(routes@)[k]) == (
                    seen@[k].0@,
                    seen@[k].1@,
                ),
            route_table(views(routes@), 0) == route_table(views(routes@), i as nat),
        decreases routes.len() - i,
    {
        match web_validate_route_shape(&routes[i]) {
            Err(error) => {
                return Err(error);
            },
            Ok(_) => {},
        }
        let (method, path) = read_registration(&routes[i]);
        let mut k: usize = 0;
        let mut taken: bool = false;
        while k < seen.len()
            invariant
                k <= seen@.len(),
                seen@.len() == i,
                i < routes@.len(),
                forall|k: int|
                    0 <= k < i ==> registration(#[trigger] views(routes@)[k]) == (
                        seen@[k].0@,
                        seen@[k].1@,
                    ),
                taken == registered(views(routes@), k as int, (method@, path@)),
            decreases seen.len() - k,
        {
            let ghost before = taken;
            if same(seen[k].0.as_str(), method.as_str()) && same(seen[k].1.as_str(), path.as_str()) {
                taken = true;
            }
            proof {
                let r = (method@, path@);
                assert(registration(views(routes@)[k as int]) == (seen@[k as int].0@, seen@[k as int].1@));
                if before {
                    let j = choose|j: int|
                        0 <= j < k && registration(#[trigger] views(routes@)[j]) == r;
                    assert(0 <= j < k + 1);
                }
                if registered(views(routes@), k + 1, r) && !before {
                    let j = choose|j: int|
                        0 <= j < k + 1 && registration(#[trigger] views(routes@)[j]) == r;
                    assert(j == k);
                }
            }
            k += 1;
        }
        if taken {
            return Err(
                join5(
                    "Web route conflict: ",
                    method.as_str(),
                    " ",
                    path.as_str(),
                    " is registered more than once",
                ),
            );
        }
        seen.push((method, path));
        i += 1;
    }
    Ok(())
}

/// Validates a route table and that the functions it names are there.
pub fn web_validate_routes(routes: &Vec<ZapValue>, funcs: &Functions) -> (r: Result<(), String>)
    ensures
        told_unit(r) == routes_checked(views(routes@), funcs@),
{
    broadcast use lemma_value_view;

    match web_validate_route_table(routes) {
        Err(error) => {
            return Err(error);
        },
        Ok(_) => {},
    }
    let mut i: usize = 0;
    while i < routes.len()
        invariant
            i <= routes@.len(),
            route_table(views(routes@), 0) is Ok,
            missing_handler(views(routes@), funcs@, 0) == missing_handler(
                views(routes@),
                funcs@,
                i as nat,
            ),
        decreases routes.len() - i,
    {
        proof {
            lemma_value_view(&routes@[i as int]);
        }
        if let ZapValue::Dict(parts) = &routes[i] {
            if let Some(ZapValue::Text(name)) = parts.find("handler") {
                if !funcs.holds(name.as_str()) {
                    return Err(join2("web_serve handler not found: ", name.as_str()));
                }
            }
        }
        i += 1;
    }
    Ok(())
}

} // verus!
