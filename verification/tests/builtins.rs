use zap_evaluator::json::{json_to_value, value_to_json, Json, MAX_JSON_BYTES, MAX_JSON_DEPTH};
use zap_evaluator::numbers::MAX_POW_EXPONENT;
use zap_evaluator::records::{MAX_LOG_FIELD_KEY_BYTES, MAX_LOG_MESSAGE_BYTES};
use zap_evaluator::runtime::{direct_builtin, direct_builtin_with_context};
use zap_evaluator::table::Table;
use zap_evaluator::value::{
    ZapValue as Value, MAX_RUNTIME_COLLECTION_ITEMS, MAX_RUNTIME_TEXT_BYTES,
};
use zap_evaluator::world::ExecutionContext;

fn text(s: &str) -> Value {
    Value::Text(s.to_string())
}

fn table(entries: Vec<(&str, Value)>) -> Table<Value> {
    let mut t = Table::new();
    for (key, value) in entries {
        t.insert(key.to_string(), value);
    }
    t
}

fn map(entries: Vec<(&str, Value)>) -> Value {
    Value::Dict(table(entries))
}

fn copy_of(t: &Table<Value>) -> Value {
    zap_evaluator::value::ZapValue::Dict(zap_evaluator::value::copy_table(t))
}

fn found(name: &str, args: Vec<Value>) -> Value {
    direct_builtin(name, &args, None)
        .expect("the builtin should succeed")
        .expect("the builtin should return a value")
}

fn error(name: &str, args: Vec<Value>) -> String {
    direct_builtin(name, &args, None).expect_err("the builtin should fail")
}

#[test]
fn language_task_apis_cancel_and_timeout_deterministically() {
    let mut cancellation_context = ExecutionContext::new();
    let cancellation_id = cancellation_context
        .schedule_language_task(Value::Number(7))
        .expect("task should be admitted");
    assert_eq!(
        direct_builtin_with_context(
            "task_cancel",
            &vec![Value::ScheduledFuture(cancellation_id)],
            &mut cancellation_context,
        )
        .expect("task_cancel should succeed"),
        Some(Value::Bool(true))
    );
    let cancellation_error = direct_builtin_with_context(
        "task_join",
        &vec![Value::ScheduledFuture(cancellation_id)],
        &mut cancellation_context,
    )
    .expect_err("cancelled task join should fail");
    assert_eq!(cancellation_error, "language task 1 failed: Cancelled");

    let mut timeout_context = ExecutionContext::new();
    let timeout_id = timeout_context
        .schedule_language_task(Value::Number(9))
        .expect("task should be admitted");
    let timeout_error = direct_builtin_with_context(
        "task_join_timeout",
        &vec![Value::ScheduledFuture(timeout_id), Value::Number(0)],
        &mut timeout_context,
    )
    .expect_err("zero poll budget should time out the task");
    assert_eq!(timeout_error, "language task 1 failed: TimedOut");

    let mut bounded_context = ExecutionContext::new();
    let bounded_id = bounded_context
        .schedule_language_task(Value::Number(11))
        .expect("task should be admitted");
    assert_eq!(
        direct_builtin_with_context(
            "task_join_timeout",
            &vec![Value::ScheduledFuture(bounded_id), Value::Number(1)],
            &mut bounded_context,
        )
        .expect("one poll should complete the task"),
        Some(Value::Number(11))
    );
}

#[test]
fn language_task_join_reports_terminal_state_without_double_release() {
    let mut context = ExecutionContext::new();
    let task_id = context
        .schedule_language_task(Value::Number(7))
        .expect("task should be admitted");
    assert_eq!(
        direct_builtin_with_context(
            "task_join",
            &vec![Value::ScheduledFuture(task_id)],
            &mut context
        )
        .expect("first join should return the task result"),
        Some(Value::Number(7))
    );
    let used_after_first_join = context.budget.usage().0;
    let repeated = direct_builtin_with_context(
        "task_join",
        &vec![Value::ScheduledFuture(task_id)],
        &mut context,
    )
    .expect_err("repeated join should report its terminal state");
    assert_eq!(repeated, "language task 1 failed: AlreadyJoined");
    let unknown = direct_builtin_with_context(
        "task_join",
        &vec![Value::ScheduledFuture(task_id + 100)],
        &mut context,
    )
    .expect_err("unknown join should report an explicit state");
    assert_eq!(unknown, "language task 101 failed: UnknownTask");
    assert_eq!(context.budget.usage().1, 0);
    assert_eq!(context.budget.usage().0, used_after_first_join);
}

#[test]
fn async_capabilities_builtin_reports_explicit_boundaries() {
    let Value::Dict(capabilities) = direct_builtin("async_capabilities", &vec![], None)
        .expect("async_capabilities should succeed")
        .expect("async_capabilities should return a value")
    else {
        panic!("async_capabilities should return a map");
    };
    assert_eq!(
        capabilities.find("deterministic_executor"),
        Some(&text("single_threaded_poll_budget"))
    );
    assert_eq!(
        capabilities.find("language_task_surface"),
        Some(&text("executor_backed_scheduled_future"))
    );
    assert_eq!(
        capabilities.find("language_level_cancellation"),
        Some(&text("cooperative_token"))
    );
    assert_eq!(
        capabilities.find("language_level_timeout"),
        Some(&text("poll_budget"))
    );
    assert_eq!(
        capabilities.find("foreign_blocking_interrupt"),
        Some(&text("unsupported"))
    );
    assert_eq!(
        capabilities.find("resource_limit_preflight"),
        Some(&text("enforced"))
    );
    assert_eq!(
        capabilities.find("invalid_limit_errors"),
        Some(&text("typed_deterministic"))
    );
    assert!(matches!(
        capabilities.find("worker_max_workers"),
        Some(Value::Number(value)) if *value > 0
    ));
    assert_eq!(
        direct_builtin("async_capabilities", &vec![Value::Nil], None)
            .expect_err("async_capabilities must reject arguments"),
        "async_capabilities expects 0 arguments, got 1"
    );
}

#[test]
fn json_conversion_propagates_borrow_error_without_panic() {
    let mut context = ExecutionContext::new();
    let value = context.new_object("Borrowed");
    let Value::Object { id, .. } = &value else {
        panic!("object constructor must create an object value");
    };
    context.hold_object(*id, true);
    assert_eq!(
        value_to_json(&value, &context).unwrap_err(),
        "BorrowError: object fields are already borrowed"
    );
}

#[test]
fn json_conversion_rejects_cyclic_object_without_panicking() {
    let mut context = ExecutionContext::new();
    let value = context.new_object("Node");
    let Value::Object { id, .. } = &value else {
        panic!("object constructor must create an object value");
    };
    context.set_field(*id, "self", value.copy()).unwrap();
    assert_eq!(
        value_to_json(&value, &context).unwrap_err(),
        "json encode failed: cyclic object reference"
    );
}

#[test]
fn json_conversion_rejects_excessive_graph_depth() {
    let context = ExecutionContext::new();
    let mut value = Value::Nil;
    for _ in 0..=MAX_JSON_DEPTH {
        value = Value::List(vec![value]);
    }
    let error = value_to_json(&value, &context).unwrap_err();
    assert!(error.contains("json encode failed: value graph exceeds"));
    assert!(error.ends_with("levels"));
}

#[test]
fn map_set_builtin_updates_without_json_round_trip() {
    let original = table(vec![("count", Value::Number(1))]);
    let updated = direct_builtin(
        "map_set",
        &vec![copy_of(&original), text("count"), Value::Number(2)],
        None,
    )
    .expect("map_set should succeed")
    .expect("map_set should return a value");
    assert_eq!(original.find("count"), Some(&Value::Number(1)));
    let Value::Dict(updated) = updated else {
        panic!("map_set should return a map");
    };
    assert_eq!(updated.find("count"), Some(&Value::Number(2)));
    let inserted = direct_builtin(
        "map_set",
        &vec![copy_of(&updated), text("added"), text("ok")],
        None,
    )
    .expect("map_set insertion should succeed")
    .expect("map_set insertion should return a value");
    let Value::Dict(inserted) = inserted else {
        panic!("map_set insertion should return a map");
    };
    assert_eq!(inserted.find("added"), Some(&text("ok")));
    let nested_key = "quoted\"key,[]";
    let nested_value = Value::List(vec![map(vec![("inner", Value::Number(9))])]);
    let nested_result = direct_builtin(
        "map_set",
        &vec![copy_of(&inserted), text(nested_key), nested_value.copy()],
        None,
    )
    .expect("map_set JSON-sensitive insertion should succeed")
    .expect("map_set JSON-sensitive insertion should return a value");
    assert_eq!(inserted.find(nested_key), None);
    let Value::Dict(nested_result) = nested_result else {
        panic!("map_set JSON-sensitive insertion should return a map");
    };
    assert_eq!(nested_result.find(nested_key), Some(&nested_value));
}

#[test]
fn collection_builtins_reject_oversized_results_before_unbounded_growth() {
    let range_error = error(
        "range",
        vec![
            Value::Number(0),
            Value::Number((MAX_RUNTIME_COLLECTION_ITEMS + 1) as i64),
        ],
    );
    assert!(range_error.contains("range produced more than"));

    let split_error = error(
        "split",
        vec![
            Value::Text("x,".repeat(MAX_RUNTIME_COLLECTION_ITEMS + 1)),
            text(","),
        ],
    );
    assert!(split_error.contains("split produced more than"));

    let codepoints_error = error(
        "codepoints",
        vec![Value::Text("x".repeat(MAX_RUNTIME_COLLECTION_ITEMS + 1))],
    );
    assert!(codepoints_error.contains("codepoints produced more than"));
}

#[test]
fn memory_stats_builtin_reports_bounded_contract() {
    let Value::Dict(stats) = found("memory_stats", vec![]) else {
        panic!("memory_stats should return a map");
    };
    assert!(matches!(stats.find("live_objects"), Some(Value::Number(_))));
    assert_eq!(
        stats.find("max_text_bytes"),
        Some(&Value::Number(MAX_RUNTIME_TEXT_BYTES as i64))
    );
    assert_eq!(
        stats.find("max_collection_items"),
        Some(&Value::Number(MAX_RUNTIME_COLLECTION_ITEMS as i64))
    );
    assert_eq!(
        stats.find("weak_references"),
        Some(&text("unsupported_public_api"))
    );
    assert_eq!(
        error("memory_stats", vec![Value::Nil]),
        "memory_stats expects 0 arguments, got 1"
    );
}

fn stats_of(context: &mut ExecutionContext) -> Table<Value> {
    let Value::Dict(stats) = direct_builtin_with_context("memory_stats", &Vec::new(), context)
        .expect("memory_stats should succeed")
        .expect("memory_stats should return a map")
    else {
        panic!("memory_stats should return a map");
    };
    stats
}

#[test]
fn memory_stats_builtin_reads_the_context_object_store() {
    let mut context = ExecutionContext::new();
    let object = context.new_object("Scoped");
    context.hold_values(vec![object]);
    let stats = stats_of(&mut context);
    assert_eq!(stats.find("live_objects"), Some(&Value::Number(1)));
    assert_eq!(stats.find("object_allocations"), Some(&Value::Number(1)));
    context.let_go();
    let stats = stats_of(&mut context);
    assert_eq!(stats.find("live_objects"), Some(&Value::Number(0)));
}

#[test]
fn context_budget_tracks_output_and_task_lifecycle() {
    let mut context = ExecutionContext::new();
    context.budget.set_limits(1_000, 1, 2);

    let handle = direct_builtin_with_context(
        "spawn",
        &vec![Value::Future(Box::new(Value::Number(7)))],
        &mut context,
    )
    .expect("one task should be admitted")
    .expect("spawn should return a task handle");
    assert_eq!(context.budget.usage().1, 1);
    direct_builtin_with_context("task_join", &vec![handle], &mut context)
        .expect("task join should complete the task");
    assert_eq!(context.budget.usage().1, 0);

    direct_builtin_with_context("str", &vec![text("ok")], &mut context)
        .expect("small output should fit");
    assert_eq!(context.budget.usage().2, 2);
    assert!(
        direct_builtin_with_context("str", &vec![text("too-large")], &mut context).is_err()
    );
    assert_eq!(context.budget.usage().2, 2);
}

#[test]
fn failed_builtin_value_and_output_admission_rolls_back_both_counters() {
    let mut context = ExecutionContext::new();
    context.budget.set_limits(1_000, 1, 2);
    let before = context.budget.usage();
    assert!(
        direct_builtin_with_context("str", &vec![text("too-large")], &mut context).is_err()
    );
    assert_eq!(context.budget.usage(), before);
    assert_eq!(
        direct_builtin_with_context("not_a_builtin", &Vec::new(), &mut context)
            .expect("unknown builtins should be a non-match"),
        None
    );
    assert_eq!(context.budget.usage(), before);
}

#[test]
fn memory_stats_builtin_exposes_context_budget_and_lifecycle_fields() {
    let mut context = ExecutionContext::new();
    let object = context.new_object("Stats");
    context.hold_value(&object);
    context.validate(&object).expect("object should validate");
    let Value::Object { id, .. } = object else {
        panic!("object constructor must create an object value");
    };
    context
        .clear_object_fields(id)
        .expect("object cleanup should succeed");
    let stats = stats_of(&mut context);
    assert_eq!(stats.find("live_objects"), Some(&Value::Number(1)));
    assert_eq!(stats.find("cleanup_attempts"), Some(&Value::Number(1)));
    assert_eq!(stats.find("cleanup_successes"), Some(&Value::Number(1)));
    assert_eq!(stats.find("cleanup_failures"), Some(&Value::Number(0)));
    assert_eq!(stats.find("validation_runs"), Some(&Value::Number(1)));
    assert!(matches!(stats.find("max_bytes"), Some(Value::Number(value)) if *value > 0));
    assert!(matches!(stats.find("max_tasks"), Some(Value::Number(value)) if *value > 0));
}

#[test]
fn public_builtin_boundary_rejects_oversized_values() {
    let oversized = Value::Text("x".repeat(MAX_RUNTIME_TEXT_BYTES + 1));
    let error = direct_builtin("str", &vec![oversized], None)
        .expect_err("oversized values must be rejected at builtin boundaries");
    assert!(error.contains("text value exceeds"));
}

fn schema() -> Value {
    map(vec![
        (
            "name",
            map(vec![("type", text("text")), ("max_len", Value::Number(32))]),
        ),
        ("age", text("number")),
        (
            "nickname",
            map(vec![("type", text("text")), ("required", Value::Bool(false))]),
        ),
    ])
}

fn refused(value: Value) -> Table<Value> {
    let Value::ResultErr(error) = value else {
        panic!("the request should be refused");
    };
    let Value::Dict(error) = *error else {
        panic!("validation error should contain a map");
    };
    error
}

#[test]
fn web_validate_request_returns_typed_results() {
    let body = map(vec![("name", text(" Ada ")), ("age", Value::Number(7))]);
    let valid = found("web_validate_request", vec![body, schema()]);
    let Value::ResultOk(value) = valid else {
        panic!("valid request should return ResultOk");
    };
    let Value::Dict(fields) = *value else {
        panic!("valid request ResultOk should contain a map");
    };
    assert_eq!(fields.find("name"), Some(&text(" Ada ")));
    assert_eq!(fields.find("age"), Some(&Value::Number(7)));
    assert!(!fields.holds("nickname"));

    let raw_valid = found(
        "web_validate_request",
        vec![text(r#"{"name":"Ada","age":7}"#), schema()],
    );
    assert!(matches!(raw_valid, Value::ResultOk(_)));

    let malformed = refused(found(
        "web_validate_request",
        vec![text("{not-json}"), schema()],
    ));
    assert_eq!(malformed.find("code"), Some(&text("invalid_json")));
    assert_eq!(malformed.find("status"), Some(&Value::Number(400)));

    let missing = refused(found(
        "web_validate_request",
        vec![map(vec![("name", text("Ada"))]), schema()],
    ));
    assert_eq!(missing.find("code"), Some(&text("missing_field")));
    assert_eq!(missing.find("field"), Some(&text("age")));
    assert_eq!(missing.find("status"), Some(&Value::Number(400)));

    let unknown = refused(found(
        "web_validate_request",
        vec![
            map(vec![
                ("name", text("Ada")),
                ("age", Value::Number(7)),
                ("admin", Value::Bool(true)),
            ]),
            schema(),
        ],
    ));
    assert_eq!(unknown.find("code"), Some(&text("unknown_field")));
    assert_eq!(unknown.find("field"), Some(&text("admin")));
}

fn object(entries: Vec<(&str, Json)>) -> Json {
    let mut t = Table::new();
    for (key, value) in entries {
        t.insert(key.to_string(), value);
    }
    Json::Object(t)
}

fn word(s: &str) -> Json {
    Json::Text(s.to_string())
}

#[test]
fn json_security_corpus_is_deterministic_and_panic_free() {
    let corpus = vec![
        object(vec![
            ("__zap_variant", word("unknown")),
            ("value", Json::Integer(1)),
        ]),
        object(vec![("__zap_variant", word("ok"))]),
        object(vec![("__zap_variant", word("future"))]),
        object(vec![("__zap_variant", Json::Integer(7))]),
        object(vec![
            ("__zap_variant", word("none")),
            (
                "extra",
                Json::Array(vec![
                    Json::Integer(1),
                    object(vec![("x", Json::Bool(true))]),
                ]),
            ),
        ]),
        Json::Array(vec![
            Json::Null,
            Json::Bool(true),
            object(vec![(
                "nested",
                Json::Array(vec![Json::Integer(1), Json::Integer(2), Json::Integer(3)]),
            )]),
        ]),
        Json::Integer(9007199254740992i64),
    ];
    for input in &corpus {
        let first = json_to_value(input);
        let second = json_to_value(input);
        assert_eq!(
            first.as_ref().ok().map(|value| value.show()),
            second.as_ref().ok().map(|value| value.show())
        );
    }
    assert!(json_to_value(&Json::Real("1.5".to_string())).is_err());
}

#[test]
fn validates_typed_json_and_unicode_safe_text_builtins() {
    let decoded = found(
        "from_json_typed",
        vec![text("{\"name\":\"Zap\"}"), text("map")],
    );
    assert!(matches!(decoded, Value::Dict(_)));

    let mismatch = error("from_json_typed", vec![text("42"), text("text")]);
    assert_eq!(
        mismatch,
        "from_json_typed failed: expected text, got number"
    );

    assert_eq!(
        found("char_at", vec![text("က🙂ab"), Value::Number(1)]),
        text("🙂")
    );
    assert_eq!(
        found(
            "substring",
            vec![text("က🙂ab"), Value::Number(1), Value::Number(3)]
        ),
        text("🙂a")
    );
    assert_eq!(
        found("codepoints", vec![text("က🙂")]),
        Value::List(vec![Value::Number(4096), Value::Number(128578)])
    );
}

#[test]
fn builtins_without_a_context_read_the_reply_of_the_host() {
    let root = |args: Vec<Value>, reply| direct_builtin("sqrt", &args, reply);
    assert_eq!(
        root(vec![Value::Number(16)], Some(Ok(Value::Number(4)))),
        Ok(Some(Value::Number(4)))
    );
    assert_eq!(
        root(vec![Value::Number(-1)], Some(Ok(Value::Number(4)))),
        Err("sqrt expects a non-negative number".to_string())
    );
    assert_eq!(
        root(vec![Value::Number(16)], Some(Ok(Value::Nil))),
        Err("sqrt failed: invalid host reply".to_string())
    );
    assert_eq!(
        root(vec![Value::Number(16)], None),
        Err("host call pending".to_string())
    );
    assert_eq!(
        direct_builtin("utc_now", &vec![], Some(Err("before the epoch".to_string()))),
        Err("utc_now failed: before the epoch".to_string())
    );
}

#[test]
fn returns_utc_epoch_fields_and_duration_parts() {
    let elapsed = std::time::SystemTime::now()
        .duration_since(std::time::UNIX_EPOCH)
        .expect("clock should be after epoch");
    let reading = Value::List(vec![
        Value::Number(elapsed.as_secs() as i64),
        Value::Number(elapsed.subsec_nanos() as i64),
    ]);
    let utc = direct_builtin("utc_now", &vec![], Some(Ok(reading)))
        .expect("utc_now should succeed")
        .expect("utc_now should return a value");
    let Value::Dict(fields) = utc else {
        panic!("utc_now should return a map");
    };
    let seconds = match fields.find("unix_seconds") {
        Some(Value::Number(value)) => *value,
        other => panic!("unexpected unix_seconds: {other:?}"),
    };
    let millis = match fields.find("unix_millis") {
        Some(Value::Number(value)) => *value,
        other => panic!("unexpected unix_millis: {other:?}"),
    };
    assert!(seconds > 0);
    assert!(millis >= seconds * 1_000);
    assert!(millis < (seconds + 1) * 1_000);

    let Value::Dict(parts) = found("duration_parts", vec![Value::Number(90_061_007)]) else {
        panic!("duration_parts should return a map");
    };
    assert_eq!(parts.find("days"), Some(&Value::Number(1)));
    assert_eq!(parts.find("hours"), Some(&Value::Number(1)));
    assert_eq!(parts.find("minutes"), Some(&Value::Number(1)));
    assert_eq!(parts.find("seconds"), Some(&Value::Number(1)));
    assert_eq!(parts.find("millis"), Some(&Value::Number(7)));
}

#[test]
fn duration_between_supports_signed_results_and_stable_errors() {
    let Value::Dict(parts) = found(
        "duration_between",
        vec![Value::Number(2_000), Value::Number(500)],
    ) else {
        panic!("duration_between should return a map");
    };
    assert_eq!(parts.find("milliseconds"), Some(&Value::Number(-1_500)));
    assert_eq!(parts.find("seconds"), Some(&Value::Number(-1)));
    assert_eq!(parts.find("millis"), Some(&Value::Number(-500)));

    let invalid = error("duration_parts", vec![text("1s")]);
    assert!(invalid.contains("duration_parts expects milliseconds as a number"));

    let min_error = error("duration_parts", vec![Value::Number(i64::MIN)]);
    assert!(min_error.contains("duration_parts integer overflow"));

    let between_error = error(
        "duration_between",
        vec![Value::Number(i64::MAX), Value::Number(i64::MIN)],
    );
    assert!(between_error.contains("duration_between integer overflow"));
}

#[test]
fn builds_deterministic_structured_log_records() {
    let fields = table(vec![("zeta", Value::Number(2)), ("alpha", text("zap"))]);
    let Value::Dict(record_fields) = found(
        "log_record",
        vec![text("info"), text("started"), copy_of(&fields)],
    ) else {
        panic!("log_record should return a map");
    };
    assert_eq!(record_fields.find("level"), Some(&text("info")));
    assert_eq!(record_fields.find("message"), Some(&text("started")));
    assert_eq!(record_fields.find("fields"), Some(&Value::Dict(fields)));

    let encoded = found(
        "log_json",
        vec![
            text("warn"),
            text("slow request"),
            map(vec![("zeta", Value::Number(2)), ("alpha", text("zap"))]),
        ],
    );
    assert_eq!(
        encoded,
        text(
            "{\"fields\":{\"alpha\":\"zap\",\"zeta\":2},\"level\":\"warn\",\"message\":\"slow request\"}"
        )
    );
}

#[test]
fn rejects_invalid_structured_log_inputs() {
    let invalid_level = error(
        "log_record",
        vec![text("notice"), text("message"), map(vec![])],
    );
    assert!(invalid_level.contains("level must be trace, debug, info, warn, or error"));

    let empty_message = error("log_record", vec![text("info"), text(""), map(vec![])]);
    assert!(empty_message.contains("message must contain 1 to"));

    let mut oversized_fields = Table::new();
    for index in 0..65 {
        oversized_fields.insert(format!("field{index}"), Value::Number(index));
    }
    let field_error = error(
        "log_record",
        vec![
            text("info"),
            text("message"),
            Value::Dict(oversized_fields),
        ],
    );
    assert!(field_error.contains("fields exceed the 64 entry limit"));
}

#[test]
fn stdlib_security_corpus() {
    let long_key = "x".repeat(MAX_LOG_FIELD_KEY_BYTES + 1);
    let cases: Vec<(&str, &str, Vec<Value>)> = vec![
        (
            "typed-json-size",
            "from_json_typed",
            vec![Value::Text("x".repeat(MAX_JSON_BYTES + 1)), text("text")],
        ),
        (
            "typed-json-category",
            "from_json_typed",
            vec![text("true"), text("number")],
        ),
        (
            "unicode-index",
            "char_at",
            vec![text("က"), Value::Number(2)],
        ),
        (
            "duration-overflow",
            "duration_parts",
            vec![Value::Number(i64::MIN)],
        ),
        (
            "log-level",
            "log_record",
            vec![text("notice"), text("message"), map(vec![])],
        ),
        (
            "log-message-size",
            "log_record",
            vec![
                text("info"),
                Value::Text("x".repeat(MAX_LOG_MESSAGE_BYTES + 1)),
                map(vec![]),
            ],
        ),
        (
            "log-field-key-size",
            "log_record",
            vec![
                text("info"),
                text("message"),
                map(vec![(long_key.as_str(), text("value"))]),
            ],
        ),
    ];
    for (name, builtin, args) in cases {
        let first = direct_builtin(builtin, &args, None);
        let second = direct_builtin(builtin, &args, None);
        assert_eq!(
            format!("{first:?}"),
            format!("{second:?}"),
            "stdlib corpus result was nondeterministic: {name}"
        );
        assert!(
            first.is_err(),
            "stdlib corpus case was accepted unexpectedly: {name}"
        );
    }
    let mut context = ExecutionContext::new();
    let oversized = vec![
        text("/tmp/zap-stdlib-corpus.txt"),
        Value::Text("x".repeat(zap_evaluator::host::MAX_FILE_BYTES + 1)),
    ];
    let first = zap_evaluator::host::direct_io_builtin("atomic_write", &oversized, &mut context);
    let second = zap_evaluator::host::direct_io_builtin("atomic_write", &oversized, &mut context);
    assert_eq!(format!("{first:?}"), format!("{second:?}"));
    assert!(first.is_err());
    assert!(context.pending.is_none());
}

#[test]
fn rejects_excessive_sleep_and_pow_bounds() {
    let mut context = ExecutionContext::new();
    let sleep_error = zap_evaluator::system::direct_system_builtin(
        "sleep",
        &vec![Value::Number(
            zap_evaluator::host::MAX_SLEEP_MILLISECONDS + 1,
        )],
        &mut context,
    )
    .expect_err("oversized sleep must fail");
    assert!(sleep_error.contains("sleep exceeds the"));
    let pow_error = error(
        "pow",
        vec![Value::Number(1), Value::Number(MAX_POW_EXPONENT + 1)],
    );
    assert!(pow_error.contains("pow exponent exceeds the"));
    assert_eq!(
        found("pow", vec![Value::Number(2), Value::Number(10)]),
        Value::Number(1024)
    );
}

// ---------------------------------------------------------------------------
// More builtins
// ---------------------------------------------------------------------------

#[test]
fn json_text_goes_there_and_back() {
    let value = map(vec![
        ("list", Value::List(vec![Value::Nil, Value::Bool(true)])),
        ("text", text("a\"b\\c\u{1}é")),
        ("number", Value::Number(-5)),
        (
            "some",
            Value::OptionSome(Box::new(Value::ResultErr(Box::new(text("x"))))),
        ),
    ]);
    let encoded = found("json", vec![value.copy()]);
    assert_eq!(found("from_json", vec![encoded]), value);
}

#[test]
fn letters_change_case_by_unicode() {
    assert_eq!(found("upper", vec![text("straße")]), text("STRASSE"));
    assert_eq!(found("lower", vec![text("ÄÖ")]), text("äö"));
}

#[test]
fn lists_are_sorted_reversed_and_counted() {
    let words = Value::List(vec![text("b"), text("é"), text("a"), text("b")]);
    assert_eq!(
        found("sort", vec![words.copy()]),
        Value::List(vec![text("a"), text("b"), text("b"), text("é")])
    );
    assert_eq!(
        found("reverse", vec![Value::List(vec![Value::Number(1), Value::Number(2)])]),
        Value::List(vec![Value::Number(2), Value::Number(1)])
    );
    assert_eq!(found("count", vec![words, text("b")]), Value::Number(2));
}

#[test]
fn url_escapes_go_there_and_back() {
    let mut context = ExecutionContext::new();
    let mut call = |name: &str, s: &str| {
        zap_evaluator::system::direct_external_builtin(name, &vec![text(s)], &mut context)
            .expect("the builtin should succeed")
            .expect("the builtin should return a value")
    };
    assert_eq!(call("url_encode", "a b/é~"), text("a%20b%2F%C3%A9~"));
    assert_eq!(call("url_decode", "a%20b%2F%C3%A9~"), text("a b/é~"));
}
