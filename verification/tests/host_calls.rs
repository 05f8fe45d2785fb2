use zap_evaluator::host::{
    atomic_write, direct_io_builtin, enter_workspace, file_metadata, read_limited_text,
    require_capability_for_mode, MAX_FILE_BYTES,
};
use zap_evaluator::modules::{find_module_places, tell_module};
use zap_evaluator::paths::{
    path_climbs, path_file_name, path_is_absolute, path_lies_within, path_parent, push_path,
};
use zap_evaluator::network::{blocked_network_ip, validate_network_destination_for_mode, Address};
use zap_evaluator::system::{direct_external_builtin, read_process_output};
use zap_evaluator::value::{ZapValue as Value, MAX_RUNTIME_COLLECTION_ITEMS};
use zap_evaluator::webcheck::MAX_HTTP_REQUEST_BYTES;
use zap_evaluator::world::ExecutionContext;
use base64::Engine;

fn text(s: &str) -> Value {
    Value::Text(s.to_string())
}

fn with_replies(replies: Vec<Result<Value, String>>) -> ExecutionContext {
    let mut context = ExecutionContext::new();
    context.replies = replies;
    context
}

fn encoded(bytes: &[u8]) -> Value {
    Value::Text(base64::engine::general_purpose::STANDARD.encode(bytes))
}

#[test]
fn line_builtins_reject_oversized_results_before_unbounded_growth() {
    let content = "x\n".repeat(MAX_RUNTIME_COLLECTION_ITEMS + 1);
    let mut context = with_replies(vec![Ok(Value::Text(content))]);
    let read_error = direct_io_builtin("read_lines", &vec![text("/lines.txt")], &mut context)
        .expect_err("oversized read_lines must fail");
    assert!(read_error.contains("read_lines produced more than"));

    let mut context = ExecutionContext::new();
    let write_error = direct_io_builtin(
        "write_lines",
        &vec![
            text("/lines.txt"),
            Value::List(vec![Value::Text("x".repeat(MAX_FILE_BYTES + 1))]),
        ],
        &mut context,
    )
    .expect_err("oversized write_lines output must fail");
    assert!(write_error.contains("write_lines failed: content exceeds"));
    assert!(context.pending.is_none());
}

#[test]
fn filesystem_metadata_and_atomic_write_are_deterministic() {
    let path = "/tmp/zap-atomic-write.txt";
    let mut context = ExecutionContext::new();
    assert!(atomic_write(path, "hello Zap", &mut context).is_err());
    let call = context.pending.as_ref().expect("the write is asked for");
    assert_eq!(call.operation, "atomic_write");
    assert_eq!(call.arguments, vec![text(path), text("hello Zap")]);

    let mut context = with_replies(vec![
        Ok(Value::Nil),
        Ok(Value::List(vec![
            Value::Bool(false),
            Value::Bool(true),
            Value::Bool(false),
            Value::Number(9),
            Value::Bool(false),
        ])),
    ]);
    atomic_write(path, "hello Zap", &mut context).expect("atomic write should create a file");
    let Value::Dict(metadata) =
        file_metadata(path, &mut context).expect("metadata should be readable")
    else {
        panic!("file_metadata must return a map");
    };
    assert_eq!(metadata.find("kind"), Some(&text("file")));
    assert_eq!(metadata.find("size"), Some(&Value::Number(9)));
    assert_eq!(metadata.find("readonly"), Some(&Value::Bool(false)));

    assert!(atomic_write(path, "updated", &mut context).is_err());
    let call = context.pending.as_ref().expect("the second write is asked for");
    assert_eq!(call.operation, "atomic_write");
    assert_eq!(call.arguments, vec![text(path), text("updated")]);
    let mut context = with_replies(vec![Ok(Value::Nil), Ok(text("updated"))]);
    atomic_write(path, "updated", &mut context).expect("atomic write should replace a file");
    assert_eq!(
        direct_io_builtin("read_text", &vec![text(path)], &mut context),
        Ok(Some(text("updated")))
    );
}

/// What the host finds at the place of an asset: whether it is a file, and its size.
fn found_file(is_file: bool, bytes: i64) -> Value {
    Value::List(vec![Value::Bool(is_file), Value::Number(bytes)])
}

#[test]
fn static_assets_stay_in_their_directory() {
    let served = |directory: bool, there: Value, metadata: Value| {
        let mut context = with_replies(vec![
            Ok(Value::List(vec![text("/site"), Value::Bool(directory), there])),
            Ok(metadata),
            Ok(encoded(b"x")),
        ]);
        let result = direct_io_builtin(
            "web_static",
            &vec![text("a.txt"), text("/site")],
            &mut context,
        );
        (result, context.cursor)
    };
    assert_eq!(
        served(true, text("/other/a.txt"), found_file(true, 1)),
        (Err("web_static asset path escapes the root directory".to_string()), 1)
    );
    assert_eq!(
        served(false, Value::OptionNone, Value::Nil),
        (Err("web_static root directory must be a directory".to_string()), 1)
    );
    assert_eq!(
        served(true, text("/site/a.txt"), found_file(true, 2_097_153)),
        (Err("web_static asset exceeds the 2097152 byte limit".to_string()), 2)
    );
    let (response, cursor) = served(true, text("/site/a.txt"), found_file(false, 1));
    let Ok(Some(Value::Dict(response))) = response else {
        panic!("a directory should be answered");
    };
    assert_eq!((response.find("status"), cursor), (Some(&Value::Number(404)), 2));
    let (response, cursor) = served(true, text("/site/a.txt"), found_file(true, 1));
    let Ok(Some(Value::Dict(response))) = response else {
        panic!("a file should be served");
    };
    assert_eq!((response.find("body"), cursor), (Some(&text("x")), 3));
}

#[test]
fn files_are_read_within_their_limit() {
    assert_eq!(
        read_limited_text(b"h\xc3\xa9".to_vec(), "read_text"),
        Ok("h\u{e9}".to_string())
    );
    assert_eq!(
        read_limited_text(vec![0xff], "read_text"),
        Err("read_text failed: file is not UTF-8".to_string())
    );
    assert_eq!(
        read_limited_text(vec![b'x'; MAX_FILE_BYTES + 1], "program"),
        Err("program failed: file exceeds the 8388608 byte limit".to_string())
    );
    assert_eq!(
        find_module_places("/srv", "lib/a", '/'),
        ("/srv/lib/a".to_string(), "/srv/lib/a.zp".to_string())
    );
    assert_eq!(tell_module("/srv/a".to_string(), true), Ok(text("/srv/a")));
    assert_eq!(
        tell_module("/srv".to_string(), false),
        Err("module is not a file: /srv".to_string())
    );
}

fn asset(
    builtin: &str,
    args: &[&str],
    found: Vec<Option<&[u8]>>,
) -> Result<Option<Value>, String> {
    let mut replies = Vec::new();
    for asset in found {
        let there = asset.map_or(Value::OptionNone, |_| text("/site/asset"));
        replies.push(Ok(Value::List(vec![text("/site"), Value::Bool(true), there])));
        if let Some(bytes) = asset {
            replies.push(Ok(found_file(true, bytes.len() as i64)));
            replies.push(Ok(encoded(bytes)));
        }
    }
    let mut context = with_replies(replies);
    let values = args.iter().map(|arg| text(arg)).collect();
    direct_io_builtin(builtin, &values, &mut context)
}

#[test]
fn web_static_assets_are_typed_and_confined() {
    let response = |result: Result<Option<Value>, String>| match result
        .expect("static builtin should not fail")
        .expect("static builtin should return a value")
    {
        Value::Dict(response) => response,
        _ => panic!("web_static must return a response map"),
    };
    let index = response(asset(
        "web_static",
        &["index.html", "/site"],
        vec![Some(b"<h1>Zap</h1>")],
    ));
    assert_eq!(index.find("status"), Some(&Value::Number(200)));
    assert_eq!(
        index.find("content_type"),
        Some(&text("text/html; charset=utf-8"))
    );
    assert_eq!(index.find("body"), Some(&text("<h1>Zap</h1>")));

    let css = response(asset(
        "web_static",
        &["assets/app.css", "/site"],
        vec![Some(b".app { color: blue; }")],
    ));
    assert_eq!(css.find("status"), Some(&Value::Number(200)));
    assert_eq!(
        css.find("content_type"),
        Some(&text("text/css; charset=utf-8"))
    );

    let binary = response(asset(
        "web_static",
        &["assets/logo.png", "/site"],
        vec![Some(&[0_u8, 159_u8, 146_u8, 150_u8])],
    ));
    assert_eq!(binary.find("status"), Some(&Value::Number(200)));
    assert_eq!(binary.find("content_type"), Some(&text("image/png")));
    assert_eq!(
        binary.find("body_base64"),
        Some(&encoded(&[0_u8, 159_u8, 146_u8, 150_u8]))
    );

    let spa = response(asset(
        "web_static_spa",
        &["dashboard", "/site", "index.html"],
        vec![Some(b"<h1>Zap</h1>")],
    ));
    assert_eq!(spa.find("status"), Some(&Value::Number(200)));
    assert_eq!(spa.find("body"), Some(&text("<h1>Zap</h1>")));

    let missing = response(asset(
        "web_static",
        &["assets/missing.js", "/site"],
        vec![None],
    ));
    assert_eq!(missing.find("status"), Some(&Value::Number(404)));

    let unsupported = response(asset(
        "web_static",
        &["assets/secret.bin", "/site"],
        vec![Some(&[0_u8, 1_u8, 2_u8])],
    ));
    assert_eq!(unsupported.find("status"), Some(&Value::Number(404)));
    assert!(asset("web_static", &["../outside.html", "/site"], vec![]).is_err());
    assert!(asset("web_static", &["assets/%2e%2e/outside.js", "/site"], vec![]).is_err());
}

#[test]
fn workspaces_are_resolved_directories() {
    let enter = |reply: Result<Value, String>| {
        let mut context = with_replies(vec![reply]);
        let result = enter_workspace(&mut context, ".");
        (result, context.workspace)
    };
    assert_eq!(
        enter(Ok(Value::List(vec![text("/srv/app"), Value::Bool(true)]))),
        (Ok(()), Some("/srv/app".to_string()))
    );
    assert_eq!(
        enter(Ok(Value::List(vec![text("/srv/file"), Value::Bool(false)]))),
        (Err("workspace root must be a directory".to_string()), None)
    );
    assert_eq!(
        enter(Err("missing".to_string())),
        (Err("workspace root is not accessible: missing".to_string()), None)
    );
    let mut context = with_replies(vec![Ok(text("/srv/app/a.txt")), Ok(text("a"))]);
    context.workspace = Some("/srv/app".to_string());
    assert_eq!(enter_workspace(&mut context, "/elsewhere"), Ok(()));
    assert_eq!(
        direct_io_builtin("read_text", &vec![text("a.txt")], &mut context),
        Ok(Some(text("a")))
    );
}

#[test]
fn workspace_confinement_is_owned_by_execution_context() {
    let read = |root: &str, content: &str| {
        let mut context = with_replies(vec![
            Ok(Value::List(vec![text(root), Value::Bool(true)])),
            Ok(text(&format!("{root}/marker.txt"))),
            Ok(text(content)),
        ]);
        enter_workspace(&mut context, root).expect("the root should be accepted");
        assert_eq!(context.workspace.as_deref(), Some(root));
        direct_io_builtin("read_text", &vec![text("marker.txt")], &mut context)
    };
    assert_eq!(
        read("/tmp/zap-workspace-first", "first").expect("first read"),
        Some(text("first"))
    );
    assert_eq!(
        read("/tmp/zap-workspace-second", "second").expect("second read"),
        Some(text("second"))
    );
}

#[test]
fn line_file_builtins_use_workspace_confinement() {
    let root = "/tmp/zap-line-io-workspace";
    let mut context = with_replies(vec![
        Ok(Value::List(vec![text(root), Value::Bool(true)])),
        Ok(text("/tmp/zap-line-io-escape.txt")),
    ]);
    enter_workspace(&mut context, root).expect("workspace should be accepted");
    let write_error = direct_io_builtin(
        "write_lines",
        &vec![
            text("../zap-line-io-escape.txt"),
            Value::List(vec![text("blocked")]),
        ],
        &mut context,
    )
    .expect_err("write_lines traversal must fail");
    assert!(write_error.contains("write_lines failed: path escapes the workspace"));

    let mut context = with_replies(vec![
        Ok(Value::List(vec![text(root), Value::Bool(true)])),
        Ok(text("/tmp/zap-line-io-secret.txt")),
    ]);
    enter_workspace(&mut context, root).expect("workspace should be accepted");
    let read_error = direct_io_builtin(
        "read_lines",
        &vec![text("../zap-line-io-secret.txt")],
        &mut context,
    )
    .expect_err("read_lines traversal must fail");
    assert!(read_error.contains("read_lines failed: path escapes the workspace"));
    assert!(context.pending.is_none());
}

fn resolved(shown: &str, parts: &[i64]) -> Value {
    let mut address = vec![text(shown)];
    address.extend(parts.iter().map(|part| Value::Number(*part)));
    Value::List(vec![Value::List(address)])
}

#[test]
fn denies_untrusted_capabilities_and_private_networks() {
    assert!(require_capability_for_mode("filesystem access", true).is_err());
    assert!(require_capability_for_mode("environment access", true).is_err());
    assert!(require_capability_for_mode("process execution", true).is_err());
    assert!(require_capability_for_mode("network access", true).is_err());
    assert!(require_capability_for_mode("network access", false).is_ok());
    let validate = |host: &str, restricted: bool, reply: Value| {
        let mut context = with_replies(vec![Ok(reply)]);
        validate_network_destination_for_mode(host, 80, restricted, &mut context)
    };
    assert_eq!(
        validate("127.0.0.1", true, resolved("127.0.0.1", &[127, 0, 0, 1])).unwrap_err(),
        "network destination is blocked in untrusted mode: 127.0.0.1"
    );
    assert!(validate("10.0.0.1", true, resolved("10.0.0.1", &[10, 0, 0, 1])).is_err());
    assert!(validate(
        "[::ffff:127.0.0.1]",
        true,
        resolved("::ffff:127.0.0.1", &[0, 0, 0, 0, 0, 0xffff, 0x7f00, 1])
    )
    .is_err());
    assert!(validate(
        "ff02::1",
        true,
        resolved("ff02::1", &[0xff02, 0, 0, 0, 0, 0, 0, 1])
    )
    .is_err());
    assert!(validate("127.0.0.1", false, resolved("127.0.0.1", &[127, 0, 0, 1])).is_ok());
    assert!(validate("1.1.1.1", true, resolved("1.1.1.1", &[1, 1, 1, 1])).is_ok());
    assert_eq!(
        validate("nowhere", true, Value::List(vec![])).unwrap_err(),
        "network destination did not resolve to an address"
    );
}

#[test]
fn blocked_addresses_are_told_by_their_bits() {
    let v4 = |a: u8, b: u8, c: u8, d: u8| blocked_network_ip(&Address::V4 { a, b, c, d });
    assert!(v4(172, 16, 0, 1) && v4(172, 31, 9, 9) && !v4(172, 32, 0, 1));
    assert!(v4(192, 168, 1, 1) && v4(169, 254, 0, 1) && v4(0, 0, 0, 0));
    assert!(v4(255, 255, 255, 255) && v4(224, 0, 0, 1) && !v4(8, 8, 8, 8));
    let v6 = |s0: u16, s7: u16| {
        blocked_network_ip(&Address::V6 {
            s0,
            s1: 0,
            s2: 0,
            s3: 0,
            s4: 0,
            s5: 0,
            s6: 0,
            s7,
        })
    };
    assert!(v6(0, 0) && v6(0, 1) && v6(0xfc00, 1) && v6(0xfdff, 1));
    assert!(v6(0xfe80, 1) && v6(0xfebf, 1) && !v6(0xfec0, 1) && !v6(0x2001, 1));
}

#[test]
fn rejects_oversized_http_request_bodies_before_network_io() {
    let mut context = ExecutionContext::new();
    let body = Value::Text("x".repeat(MAX_HTTP_REQUEST_BYTES + 1));
    let result = direct_external_builtin(
        "http_request",
        &vec![text("POST"), text("http://127.0.0.1/"), body],
        &mut context,
    );
    assert!(result
        .expect_err("oversized request body must be rejected")
        .contains("body exceeds"));
    assert!(context.pending.is_none());
}

#[test]
fn rejects_malformed_and_out_of_range_url_ports() {
    let mut context = ExecutionContext::new();
    for url in [
        "https://example.com:",
        "https://example.com:abc",
        "https://example.com:65536",
    ] {
        let error = direct_external_builtin("url_parse", &vec![text(url)], &mut context)
            .expect_err("malformed URL port must fail");
        assert!(
            error.contains("url_parse found an invalid port"),
            "{url}: {error}"
        );
    }
    assert!(direct_external_builtin(
        "url_parse",
        &vec![text("https://example.com:443/path")],
        &mut context
    )
    .is_ok());
}

#[test]
fn untrusted_runs_reach_nothing_of_the_host() {
    let mut context = ExecutionContext::new();
    context.untrusted = true;
    for (name, args) in [
        ("read_text", vec![text("a")]),
        ("env", vec![text("HOME")]),
        ("process_run", vec![text("ls"), Value::List(vec![])]),
        ("http_get", vec![text("http://example.com/")]),
        ("http_serve_once", vec![Value::Number(0), text("x")]),
    ] {
        let error = direct_external_builtin(name, &args, &mut context).unwrap_err();
        assert!(error.contains("is disabled in untrusted mode"), "{name}");
    }
    assert!(context.pending.is_none());
}

#[test]
fn process_and_http_results_become_records() {
    let mut context = with_replies(vec![Ok(Value::List(vec![
        Value::Number(3),
        Value::Bool(false),
        encoded(b"out"),
        Value::Bool(false),
        encoded(b"err"),
        Value::Bool(false),
    ]))]);
    let Some(Value::Dict(record)) = direct_external_builtin(
        "process_run",
        &vec![text("tool"), Value::List(vec![text("-v")])],
        &mut context,
    )
    .unwrap() else {
        panic!("process_run should return a map");
    };
    assert_eq!(record.find("status"), Some(&Value::Number(3)));
    assert_eq!(record.find("success"), Some(&Value::Bool(false)));
    assert_eq!(record.find("stdout"), Some(&text("out")));
    assert_eq!(record.find("stderr"), Some(&text("err")));

    let mut context = with_replies(vec![Ok(Value::List(vec![
        Value::Number(201),
        encoded("grüezi".as_bytes()),
    ]))]);
    let Some(Value::Dict(record)) = direct_external_builtin(
        "http_get",
        &vec![text("http://example.com/")],
        &mut context,
    )
    .unwrap() else {
        panic!("http_get should return a map");
    };
    assert_eq!(record.find("status"), Some(&Value::Number(201)));
    assert_eq!(record.find("success"), Some(&Value::Bool(true)));
    assert_eq!(record.find("body"), Some(&text("grüezi")));

    let mut context = with_replies(vec![Ok(Value::List(vec![
        Value::Number(200),
        encoded(&[0xff, 0xfe]),
    ]))]);
    assert_eq!(
        direct_external_builtin("http_get", &vec![text("http://example.com/")], &mut context)
            .unwrap_err(),
        "http_request response is not UTF-8"
    );
}

#[test]
fn process_output_is_kept_up_to_its_limit() {
    let mut kept = Vec::new();
    assert!(!read_process_output(&mut kept, false, &vec![1; 1_000_000]));
    assert!(read_process_output(&mut kept, false, &vec![2; 1_000_000]));
    assert_eq!(kept.len(), 1_048_576);
    assert!(read_process_output(&mut kept, true, &vec![3; 5]));
    assert_eq!(kept.len(), 1_048_576);
}

#[test]
fn paths_follow_the_separator_of_the_host() {
    let pushed = |path: &str, part: &str| push_path(path, part, '\\');
    assert_eq!(pushed("C:\\work", "a/b.txt"), "C:\\work\\a/b.txt");
    assert_eq!(pushed("C:\\work\\", "a"), "C:\\work\\a");
    assert_eq!(pushed("C:\\work", "D:\\other"), "D:\\other");
    assert_eq!(pushed("C:\\work", "\\temp"), "C:\\temp");
    assert_eq!(pushed("C:", "a"), "C:a");
    assert_eq!(pushed("\\\\?\\C:\\work", "..\\a/./b"), "\\\\?\\C:\\a\\b");
    let share = "\\\\?\\UNC\\host\\share";
    assert_eq!(pushed(&format!("{share}\\a"), "..\\..\\b"), format!("{share}\\b"));
    assert_eq!(push_path("/work", "/temp", '/'), "/temp");
    assert_eq!(push_path("/work", "C:\\a", '/'), "/work/C:\\a");

    assert!(path_is_absolute("C:\\a", '\\') && path_is_absolute("\\\\host\\share", '\\'));
    assert!(!path_is_absolute("\\a", '\\') && !path_is_absolute("C:a", '\\'));
    assert!(!path_is_absolute("C:\\a", '/') && path_is_absolute("/a", '/'));
    assert_eq!(path_file_name("C:\\a\\b.txt", '\\').as_deref(), Some("b.txt"));
    assert_eq!(path_parent("C:\\a", '\\').as_deref(), Some("C:\\"));
    assert_eq!(path_parent("C:\\a\\b", '\\').as_deref(), Some("C:\\a"));
    assert_eq!(path_parent("C:\\", '\\'), None);
    assert!(path_climbs("a\\..\\b", '\\') && !path_climbs("a\\..\\b", '/'));

    assert!(path_lies_within("C:\\work\\a", "C:\\work", '\\'));
    assert!(path_lies_within("C:\\a", "C:\\", '\\'));
    assert!(!path_lies_within("C:\\workshop", "C:\\work", '\\'));
    assert!(path_lies_within("/a", "/", '/') && !path_lies_within("/ab", "/a", '/'));

    let mut context = ExecutionContext::on_host(
        '\\',
        vec![
            Ok(Value::List(vec![text("\\\\?\\C:\\work"), Value::Bool(true)])),
            Ok(text("\\\\?\\C:\\work\\sub\\a.txt")),
            Ok(text("found")),
        ],
    );
    enter_workspace(&mut context, ".").expect("the workspace should be entered");
    assert_eq!(
        direct_io_builtin("read_text", &vec![text("sub/a.txt")], &mut context),
        Ok(Some(text("found")))
    );
}
