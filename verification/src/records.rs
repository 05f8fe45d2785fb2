//! Records that builtins hand out: durations, clock readings, log records, capabilities and
//! memory statistics.

use crate::json::{to_json, value_to_json, Json, JsonM};
use crate::outside::{json_text, render_json};
use crate::table::{get, put, Rows, Table};
use crate::text::{byte_len, decimal, join2, join3, length_text, same, size, Str};
use crate::value::{copy_table, fail, lemma_value_view, told, Val, ZapValue,
    MAX_RUNTIME_COLLECTION_ITEMS, MAX_RUNTIME_TEXT_BYTES};
use crate::liveness::{count_live, live_objects};
use crate::world::{ExecutionContext, World};
use vstd::prelude::*;

verus! {

pub const MAX_LOG_MESSAGE_BYTES: usize = 8_192;

pub const MAX_LOG_FIELDS: usize = 64;

pub const MAX_LOG_FIELD_KEY_BYTES: usize = 256;

pub const MAX_LOG_OUTPUT_BYTES: usize = 65_536;

pub const MAX_WORKERS: i64 = 4;

pub const MAX_WORKER_TASKS: i64 = 1_024;

pub const MAX_READ_BYTES: i64 = 8_388_608;

pub const MAX_SOCKET_BYTES: i64 = 1_048_576;

pub const SOCKET_TIMEOUT_MS: i64 = 10_000;

pub const MAX_PROCESS_BYTES: i64 = 1_048_576;

pub const PROCESS_TIMEOUT_MS: i64 = 10_000;

/// A table with one more entry.
pub fn with(table: Table<ZapValue>, key: &str, value: ZapValue) -> (r: Table<ZapValue>)
    ensures
        r@ == put(table@, key@, value@),
{
    let mut t = table;
    t.insert(key.to_owned(), value);
    t
}

pub fn dict(table: Table<ZapValue>) -> (r: ZapValue)
    ensures
        r@ == Val::Dict(table@),
{
    broadcast use lemma_value_view;

    ZapValue::Dict(table)
}

pub fn text_value(s: &str) -> (r: ZapValue)
    ensures
        r@ == Val::Text(s@),
{
    ZapValue::Text(s.to_owned())
}

pub fn some_value(value: ZapValue) -> (r: ZapValue)
    ensures
        r@ == Val::OptionSome(Box::new(value@)),
{
    ZapValue::OptionSome(Box::new(value))
}

pub fn ok_value(value: ZapValue) -> (r: ZapValue)
    ensures
        r@ == Val::ResultOk(Box::new(value@)),
{
    ZapValue::ResultOk(Box::new(value))
}

pub fn err_value(value: ZapValue) -> (r: ZapValue)
    ensures
        r@ == Val::ResultErr(Box::new(value@)),
{
    ZapValue::ResultErr(Box::new(value))
}

/// The entries of a vector of pairs.
pub open spec fn pair_rows(entries: Seq<(String, ZapValue)>) -> Rows<Val> {
    Seq::new(entries.len(), |i: int| (entries[i].0@, entries[i].1@))
}

/// A map value made of entries; of two entries with one key the later stays.
pub fn map_value(entries: Vec<(String, ZapValue)>) -> (r: ZapValue)
    ensures
        r@ == Val::Dict(crate::table::put_all(Seq::empty(), pair_rows(entries@))),
{
    let given = Table { entries };
    assert(given@ =~= pair_rows(entries@));
    let mut table: Table<ZapValue> = Table::new();
    crate::world::extend_table(&mut table, &given);
    dict(table)
}

// ---------------------------------------------------------------------------
// Time
// ---------------------------------------------------------------------------

/// A clock reading: seconds and nanoseconds since the epoch.
pub open spec fn utc_record(seconds: u64, nanos: u32) -> Result<Val, Str> {
    let millis = seconds * 1000 + nanos as int / 1_000_000;
    if seconds > i64::MAX {
        Err("utc_now timestamp exceeds integer range"@)
    } else if millis > i64::MAX {
        Err("utc_now millisecond timestamp exceeds integer range"@)
    } else {
        let t = put(Seq::empty(), "unix_seconds"@, Val::Number(seconds as i64));
        let t = put(t, "unix_millis"@, Val::Number(millis as i64));
        let t = put(t, "nanosecond_fraction"@, Val::Number(nanos as i64));
        Ok(Val::Dict(t))
    }
}

pub fn utc_now_value(seconds: u64, nanos: u32) -> (r: Result<ZapValue, String>)
    ensures
        told(r) == utc_record(seconds, nanos),
{
    if seconds > i64::MAX as u64 {
        return fail("utc_now timestamp exceeds integer range");
    }
    let millis: u128 = seconds as u128 * 1000 + (nanos / 1_000_000) as u128;
    if millis > i64::MAX as u128 {
        return fail("utc_now millisecond timestamp exceeds integer range");
    }
    let t = with(Table::new(), "unix_seconds", ZapValue::Number(seconds as i64));
    let t = with(t, "unix_millis", ZapValue::Number(millis as i64));
    let t = with(t, "nanosecond_fraction", ZapValue::Number(nanos as i64));
    Ok(dict(t))
}

/// The parts of a duration, each with the sign of the whole.
pub open spec fn duration(milliseconds: i64) -> Result<Val, Str> {
    if milliseconds == i64::MIN {
        Err("duration_parts integer overflow"@)
    } else {
        let absolute: int = if milliseconds < 0 {
            -milliseconds
        } else {
            milliseconds as int
        };
        let sign: int = if milliseconds < 0 {
            -1
        } else {
            1
        };
        let t = put(Seq::empty(), "milliseconds"@, Val::Number(milliseconds));
        let t = put(t, "days"@, Val::Number((sign * (absolute / 86_400_000)) as i64));
        let t = put(t, "hours"@, Val::Number((sign * ((absolute / 3_600_000) % 24)) as i64));
        let t = put(t, "minutes"@, Val::Number((sign * ((absolute / 60_000) % 60)) as i64));
        let t = put(t, "seconds"@, Val::Number((sign * ((absolute / 1_000) % 60)) as i64));
        let t = put(t, "millis"@, Val::Number((sign * (absolute % 1_000)) as i64));
        Ok(Val::Dict(t))
    }
}

fn signed(sign: i64, value: i64) -> (r: i64)
    requires
        sign == 1 || sign == -1,
        value >= 0,
    ensures
        r == sign * value,
{
    if sign == 1 {
        value
    } else {
        -value
    }
}

pub fn duration_value(milliseconds: i64) -> (r: Result<ZapValue, String>)
    ensures
        told(r) == duration(milliseconds),
{
    if milliseconds == i64::MIN {
        return fail("duration_parts integer overflow");
    }
    let absolute: i64 = if milliseconds < 0 {
        -milliseconds
    } else {
        milliseconds
    };
    let sign: i64 = if milliseconds < 0 {
        -1
    } else {
        1
    };
    let days: i64 = absolute / 86_400_000;
    let hours: i64 = (absolute / 3_600_000) % 24;
    let minutes: i64 = (absolute / 60_000) % 60;
    let seconds: i64 = (absolute / 1_000) % 60;
    let millis: i64 = absolute % 1_000;
    let t = with(Table::new(), "milliseconds", ZapValue::Number(milliseconds));
    let t = with(t, "days", ZapValue::Number(signed(sign, days)));
    let t = with(t, "hours", ZapValue::Number(signed(sign, hours)));
    let t = with(t, "minutes", ZapValue::Number(signed(sign, minutes)));
    let t = with(t, "seconds", ZapValue::Number(signed(sign, seconds)));
    let t = with(t, "millis", ZapValue::Number(signed(sign, millis)));
    Ok(dict(t))
}

// ---------------------------------------------------------------------------
// Logging
// ---------------------------------------------------------------------------

pub open spec fn known_level(level: Str) -> bool {
    level == "trace"@ || level == "debug"@ || level == "info"@ || level == "warn"@ || level
        == "error"@
}

pub open spec fn good_field_name(key: Str) -> bool {
    0 < size(key) <= MAX_LOG_FIELD_KEY_BYTES
}

/// A log record, or the first rule that its parts break.
pub open spec fn log_record(level: Str, message: Str, fields: Rows<Val>) -> Result<Val, Str> {
    if !known_level(level) {
        Err("log_record level must be trace, debug, info, warn, or error"@)
    } else if size(message) == 0 || size(message) > MAX_LOG_MESSAGE_BYTES {
        Err("log_record message must contain 1 to "@ + decimal(MAX_LOG_MESSAGE_BYTES as int)
            + " bytes"@)
    } else if fields.len() > MAX_LOG_FIELDS {
        Err("log_record fields exceed the "@ + decimal(MAX_LOG_FIELDS as int) + " entry limit"@)
    } else if exists|i: int| 0 <= i < fields.len() && !good_field_name(#[trigger] fields[i].0) {
        Err("log_record field names must contain 1 to "@ + decimal(MAX_LOG_FIELD_KEY_BYTES as int)
            + " bytes"@)
    } else {
        let t = put(Seq::empty(), "level"@, Val::Text(level));
        let t = put(t, "message"@, Val::Text(message));
        let t = put(t, "fields"@, Val::Dict(fields));
        Ok(Val::Dict(t))
    }
}

pub fn structured_log_value(level: &str, message: &str, fields: &Table<ZapValue>) -> (r: Result<
    ZapValue,
    String,
>)
    ensures
        told(r) == log_record(level@, message@, fields@),
{
    if !(same(level, "trace") || same(level, "debug") || same(level, "info") || same(level, "warn")
        || same(level, "error")) {
        return fail("log_record level must be trace, debug, info, warn, or error");
    }
    let length: usize = byte_len(message);
    if length == 0 || length > MAX_LOG_MESSAGE_BYTES {
        return Err(
            join3(
                "log_record message must contain 1 to ",
                length_text(MAX_LOG_MESSAGE_BYTES).as_str(),
                " bytes",
            ),
        );
    }
    if fields.len() > MAX_LOG_FIELDS {
        return Err(
            join3(
                "log_record fields exceed the ",
                length_text(MAX_LOG_FIELDS).as_str(),
                " entry limit",
            ),
        );
    }
    let mut i: usize = 0;
    while i < fields.entries.len()
        invariant
            i <= fields.entries@.len(),
            known_level(level@),
            0 < size(message@) <= MAX_LOG_MESSAGE_BYTES,
            fields.entries@.len() <= MAX_LOG_FIELDS,
            forall|j: int| 0 <= j < i ==> good_field_name(#[trigger] fields@[j].0),
        decreases fields.entries.len() - i,
    {
        let n: usize = byte_len(fields.entries[i].0.as_str());
        assert(fields@[i as int].0 == fields.entries@[i as int].0@);
        if n == 0 || n > MAX_LOG_FIELD_KEY_BYTES {
            assert(!good_field_name(fields@[i as int].0));
            return Err(
                join3(
                    "log_record field names must contain 1 to ",
                    length_text(MAX_LOG_FIELD_KEY_BYTES).as_str(),
                    " bytes",
                ),
            );
        }
        i += 1;
    }
    let t = with(Table::new(), "level", text_value(level));
    let t = with(t, "message", text_value(message));
    let t = with(t, "fields", dict(copy_table(fields)));
    Ok(dict(t))
}

/// The documents of the fields of a log record, from entry `i` on.
pub open spec fn log_fields(fields: Rows<Val>, i: nat, done: Rows<JsonM>, w: World) -> Result<
    Rows<JsonM>,
    Str,
>
    decreases fields.len() - i,
{
    if i >= fields.len() {
        Ok(done)
    } else {
        match to_json(fields[i as int].1, w) {
            Ok(document) => log_fields(fields, i + 1, put(done, fields[i as int].0, document), w),
            Err(error) => Err(error),
        }
    }
}

/// The document of a log record, its parts in the order fields, level, message.
pub open spec fn log_document(record: Val, w: World) -> Result<JsonM, Str> {
    match record {
        Val::Dict(parts) => match get(parts, "fields"@) {
            None => Err("log_json internal record missing fields"@),
            Some(Val::Dict(fields)) => match log_fields(fields, 0, Seq::empty(), w) {
                Err(error) => Err(error),
                Ok(inner) => match get(parts, "level"@) {
                    None => Err("log_json internal record missing level"@),
                    Some(level) => match to_json(level, w) {
                        Err(error) => Err(error),
                        Ok(level_document) => match get(parts, "message"@) {
                            None => Err("log_json internal record missing message"@),
                            Some(message) => match to_json(message, w) {
                                Err(error) => Err(error),
                                Ok(message_document) => {
                                    let t = put(Seq::empty(), "fields"@, JsonM::Object(inner));
                                    let t = put(t, "level"@, level_document);
                                    let t = put(t, "message"@, message_document);
                                    Ok(JsonM::Object(t))
                                },
                            },
                        },
                    },
                },
            },
            Some(_) => Err("log_json internal fields error"@),
        },
        _ => Err("log_json internal record error"@),
    }
}

/// The text of a log record.
pub open spec fn log_text(record: Val, w: World) -> Result<Str, Str> {
    match log_document(record, w) {
        Err(error) => Err(error),
        Ok(document) => match json_text(document) {
            Err(error) => Err("log_json encode failed: "@ + error),
            Ok(text) => if size(text) > MAX_LOG_OUTPUT_BYTES {
                Err("log_json output exceeds the "@ + decimal(MAX_LOG_OUTPUT_BYTES as int)
                    + " byte limit"@)
            } else {
                Ok(text)
            },
        },
    }
}

fn log_record_document(record: &ZapValue, context: &ExecutionContext) -> (r: Result<Json, String>)
    ensures
        told(r) == log_document(record@, context@),
{
    broadcast use lemma_value_view;
    broadcast use crate::json::lemma_json_view;

    let parts = match record {
        ZapValue::Dict(parts) => parts,
        _ => {
            return fail("log_json internal record error");
        },
    };
    let fields = match parts.find("fields") {
        None => {
            return fail("log_json internal record missing fields");
        },
        Some(ZapValue::Dict(fields)) => fields,
        Some(_) => {
            return fail("log_json internal fields error");
        },
    };
    let mut inner: Table<Json> = Table::new();
    let mut i: usize = 0;
    while i < fields.entries.len()
        invariant
            i <= fields.entries@.len(),
            record@ == Val::Dict(parts@),
            get(parts@, "fields"@) == Some(Val::Dict(fields@)),
            log_fields(fields@, 0, Seq::empty(), context@) == log_fields(
                fields@,
                i as nat,
                inner@,
                context@,
            ),
        decreases fields.entries.len() - i,
    {
        match value_to_json(&fields.entries[i].1, context) {
            Ok(document) => inner.insert(fields.entries[i].0.clone(), document),
            Err(error) => {
                return Err(error);
            },
        }
        i += 1;
    }
    let level = match parts.find("level") {
        None => {
            return fail("log_json internal record missing level");
        },
        Some(level) => match value_to_json(level, context) {
            Ok(document) => document,
            Err(error) => {
                return Err(error);
            },
        },
    };
    let message = match parts.find("message") {
        None => {
            return fail("log_json internal record missing message");
        },
        Some(message) => match value_to_json(message, context) {
            Ok(document) => document,
            Err(error) => {
                return Err(error);
            },
        },
    };
    let mut t: Table<Json> = Table::new();
    t.insert("fields".to_owned(), Json::Object(inner));
    t.insert("level".to_owned(), level);
    t.insert("message".to_owned(), message);
    Ok(Json::Object(t))
}

pub fn structured_log_json(record: &ZapValue, context: &ExecutionContext) -> (r: Result<
    String,
    String,
>)
    ensures
        told(r) == log_text(record@, context@),
{
    let document = match log_record_document(record, context) {
        Ok(document) => document,
        Err(error) => {
            return Err(error);
        },
    };
    match render_json(&document) {
        Err(error) => Err(join2("log_json encode failed: ", error.as_str())),
        Ok(text) => if byte_len(text.as_str()) > MAX_LOG_OUTPUT_BYTES {
            Err(
                join3(
                    "log_json output exceeds the ",
                    length_text(MAX_LOG_OUTPUT_BYTES).as_str(),
                    " byte limit",
                ),
            )
        } else {
            Ok(text)
        },
    }
}

// ---------------------------------------------------------------------------
// Capabilities and statistics
// ---------------------------------------------------------------------------

/// What the runtime says of its scheduling and of the limits of its adapters.
pub open spec fn async_capabilities() -> Val {
    let t = Seq::empty();
    let t = put(t, "deterministic_executor"@, Val::Text("single_threaded_poll_budget"@));
    let t = put(t, "worker_adapter"@, Val::Text("fixed_worker_set"@));
    let t = put(t, "network_adapter"@, Val::Text("bounded_nonblocking_tcp"@));
    let t = put(t, "process_adapter"@, Val::Text("bounded_deadline_output"@));
    let t = put(t, "process_cancellation"@, Val::Text("terminate_then_drain"@));
    let t = put(t, "language_task_surface"@, Val::Text("executor_backed_scheduled_future"@));
    let t = put(t, "language_level_scheduling"@, Val::Text("runtime_state_executor"@));
    let t = put(t, "language_level_cancellation"@, Val::Text("cooperative_token"@));
    let t = put(t, "language_level_timeout"@, Val::Text("poll_budget"@));
    let t = put(t, "foreign_blocking_interrupt"@, Val::Text("unsupported"@));
    let t = put(t, "resource_limit_preflight"@, Val::Text("enforced"@));
    let t = put(t, "invalid_limit_errors"@, Val::Text("typed_deterministic"@));
    let t = put(t, "deterministic_max_tasks"@, Val::Text("unbounded_by_default"@));
    let t = put(t, "deterministic_max_polls_per_run"@, Val::Text("unbounded_by_default"@));
    let t = put(t, "worker_max_workers"@, Val::Number(MAX_WORKERS));
    let t = put(t, "worker_max_tasks"@, Val::Number(MAX_WORKER_TASKS));
    let t = put(t, "max_read_bytes"@, Val::Number(MAX_READ_BYTES));
    let t = put(t, "max_socket_bytes"@, Val::Number(MAX_SOCKET_BYTES));
    let t = put(t, "socket_timeout_ms"@, Val::Number(SOCKET_TIMEOUT_MS));
    let t = put(t, "max_process_output_bytes"@, Val::Number(MAX_PROCESS_BYTES));
    let t = put(t, "process_timeout_ms"@, Val::Number(PROCESS_TIMEOUT_MS));
    Val::Dict(t)
}

pub fn async_capabilities_value() -> (r: ZapValue)
    ensures
        r@ == async_capabilities(),
{
    let t: Table<ZapValue> = Table::new();
    let t = with(t, "deterministic_executor", text_value("single_threaded_poll_budget"));
    let t = with(t, "worker_adapter", text_value("fixed_worker_set"));
    let t = with(t, "network_adapter", text_value("bounded_nonblocking_tcp"));
    let t = with(t, "process_adapter", text_value("bounded_deadline_output"));
    let t = with(t, "process_cancellation", text_value("terminate_then_drain"));
    let t = with(t, "language_task_surface", text_value("executor_backed_scheduled_future"));
    let t = with(t, "language_level_scheduling", text_value("runtime_state_executor"));
    let t = with(t, "language_level_cancellation", text_value("cooperative_token"));
    let t = with(t, "language_level_timeout", text_value("poll_budget"));
    let t = with(t, "foreign_blocking_interrupt", text_value("unsupported"));
    let t = with(t, "resource_limit_preflight", text_value("enforced"));
    let t = with(t, "invalid_limit_errors", text_value("typed_deterministic"));
    let t = with(t, "deterministic_max_tasks", text_value("unbounded_by_default"));
    let t = with(t, "deterministic_max_polls_per_run", text_value("unbounded_by_default"));
    let t = with(t, "worker_max_workers", ZapValue::Number(MAX_WORKERS));
    let t = with(t, "worker_max_tasks", ZapValue::Number(MAX_WORKER_TASKS));
    let t = with(t, "max_read_bytes", ZapValue::Number(MAX_READ_BYTES));
    let t = with(t, "max_socket_bytes", ZapValue::Number(MAX_SOCKET_BYTES));
    let t = with(t, "socket_timeout_ms", ZapValue::Number(SOCKET_TIMEOUT_MS));
    let t = with(t, "max_process_output_bytes", ZapValue::Number(MAX_PROCESS_BYTES));
    let t = with(t, "process_timeout_ms", ZapValue::Number(PROCESS_TIMEOUT_MS));
    dict(t)
}

/// A counter as a number of the language.
pub open spec fn counted(n: int) -> Val {
    Val::Number(
        if n > i64::MAX {
            i64::MAX
        } else {
            n as i64
        },
    )
}

pub fn count_value(n: u64) -> (r: ZapValue)
    ensures
        r@ == counted(n as int),
{
    if n > i64::MAX as u64 {
        ZapValue::Number(i64::MAX)
    } else {
        ZapValue::Number(n as i64)
    }
}

/// The statistics of the object store, and the fixed limits.
pub open spec fn store_stats(w: World) -> Rows<Val> {
    let t = put(Seq::empty(), "live_objects"@, counted(live_objects(w) as int));
    let t = put(t, "object_allocations"@, counted(w.cells.len() as int));
    let t = put(t, "cleanup_attempts"@, counted(w.stats.cleanup_attempts as int));
    let t = put(t, "cleanup_successes"@, counted(w.stats.cleanup_successes as int));
    let t = put(t, "cleanup_failures"@, counted(w.stats.cleanup_failures as int));
    let t = put(t, "validation_runs"@, counted(w.stats.validation_runs as int));
    let t = put(t, "max_text_bytes"@, counted(MAX_RUNTIME_TEXT_BYTES as int));
    let t = put(t, "max_collection_items"@, counted(MAX_RUNTIME_COLLECTION_ITEMS as int));
    let t = put(t, "weak_references"@, Val::Text("unsupported_public_api"@));
    put(t, "cycle_policy"@, Val::Text("explicit_clear_object_fields"@))
}

/// The statistics of a context, with its budget.
pub open spec fn memory_stats(w: World) -> Val {
    let t = store_stats(w);
    let t = put(t, "max_bytes"@, counted(w.budget.max_bytes as int));
    let t = put(t, "max_tasks"@, counted(w.budget.max_tasks as int));
    let t = put(t, "max_output_bytes"@, counted(w.budget.max_output as int));
    let t = put(t, "used_bytes"@, counted(w.budget.bytes as int));
    let t = put(t, "used_tasks"@, counted(w.budget.tasks as int));
    let t = put(t, "used_output_bytes"@, counted(w.budget.output as int));
    Val::Dict(t)
}

fn store_stats_table(context: &ExecutionContext) -> (r: Table<ZapValue>)
    ensures
        r@ == store_stats(context@),
{
    let t = with(Table::new(), "live_objects", count_value(count_live(context) as u64));
    let t = with(t, "object_allocations", count_value(context.cells.len() as u64));
    let t = with(t, "cleanup_attempts", count_value(context.stats.cleanup_attempts));
    let t = with(t, "cleanup_successes", count_value(context.stats.cleanup_successes));
    let t = with(t, "cleanup_failures", count_value(context.stats.cleanup_failures));
    let t = with(t, "validation_runs", count_value(context.stats.validation_runs));
    let t = with(t, "max_text_bytes", count_value(MAX_RUNTIME_TEXT_BYTES as u64));
    let t = with(t, "max_collection_items", count_value(MAX_RUNTIME_COLLECTION_ITEMS as u64));
    let t = with(t, "weak_references", text_value("unsupported_public_api"));
    with(t, "cycle_policy", text_value("explicit_clear_object_fields"))
}

pub fn memory_stats_value(context: &ExecutionContext) -> (r: ZapValue)
    ensures
        r@ == memory_stats(context@),
{
    let t = store_stats_table(context);
    let t = with(t, "max_bytes", count_value(context.budget.max_bytes));
    let t = with(t, "max_tasks", count_value(context.budget.max_tasks));
    let t = with(t, "max_output_bytes", count_value(context.budget.max_output));
    let t = with(t, "used_bytes", count_value(context.budget.bytes));
    let t = with(t, "used_tasks", count_value(context.budget.tasks));
    let t = with(t, "used_output_bytes", count_value(context.budget.output));
    dict(t)
}

/// The statistics where there is no context: those of an empty store, without a budget.
pub fn detached_stats_value() -> (r: ZapValue)
    ensures
        r@ == Val::Dict(store_stats(crate::world::fresh())),
{
    dict(store_stats_table(&ExecutionContext::new()))
}

} // verus!
