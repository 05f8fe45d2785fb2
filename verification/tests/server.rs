use base64::Engine;
use std::rc::Rc;
use zap_evaluator::evaluator::{execute_ast_program_with_context, web_serve_on_listener};
use zap_evaluator::program::parse_program;
use zap_evaluator::table::Table;
use zap_evaluator::value::{Function, Functions, ZapValue as Value};
use zap_evaluator::web::{
    http_serve_once, request_id_from, web_error_response, web_parse_request, web_path_matches, web_request_id,
    web_request_waits, web_response_header_is_reserved, web_result_response,
};
use zap_evaluator::webcheck::{
    web_route_path_is_valid, web_validate_route_table, web_validate_routes,
    MAX_HTTP_REQUEST_BYTES,
};
use zap_evaluator::world::ExecutionContext;

fn text(s: &str) -> Value {
    Value::Text(s.to_string())
}

fn map(entries: Vec<(&str, Value)>) -> Value {
    let mut t = Table::new();
    for (key, value) in entries {
        t.insert(key.to_string(), value);
    }
    Value::Dict(t)
}

fn encoded(bytes: &[u8]) -> Value {
    Value::Text(base64::engine::general_purpose::STANDARD.encode(bytes))
}

fn decoded(value: &Value) -> String {
    let Value::Text(notation) = value else {
        panic!("a response is handed over as text");
    };
    let bytes = base64::engine::general_purpose::STANDARD
        .decode(notation)
        .expect("a response is in base64");
    String::from_utf8(bytes).expect("test response should be valid UTF-8")
}

#[test]
fn validates_local_http_server_arguments() {
    let mut context = ExecutionContext::new();
    assert!(http_serve_once(&vec![Value::Number(-1), text("ok")], &mut context).is_err());
    assert!(http_serve_once(&vec![Value::Number(0), Value::Number(1)], &mut context).is_err());
    let oversized = "x".repeat(zap_evaluator::host::MAX_HTTP_RESPONSE_BYTES + 1);
    assert!(
        http_serve_once(&vec![Value::Number(0), Value::Text(oversized)], &mut context).is_err()
    );
    assert!(context.pending.is_none());
}

#[test]
fn native_web_route_validation_rejects_unsafe_definitions() {
    let funcs: Functions = Table::new();
    let route = |method: &str, path: &str, handler: &str| {
        map(vec![
            ("method", text(method)),
            ("path", text(path)),
            ("handler", text(handler)),
        ])
    };
    assert!(web_validate_routes(&vec![route("GET", "/", "home")], &funcs).is_err());
    assert!(web_validate_routes(&vec![route("GET\n", "/", "home")], &funcs).is_err());
    assert!(web_validate_routes(&vec![route("GET", "/../secret", "home")], &funcs).is_err());
    assert!(web_route_path_is_valid("/assets/*path"));
    assert!(!web_route_path_is_valid("/assets/*path/more"));
    assert!(!web_route_path_is_valid("/assets/*"));
    let nested = web_path_matches("/assets/*path", "/assets/chunks/app.js")
        .expect("wildcard asset path should match");
    assert_eq!(nested.find("path"), Some(&text("chunks/app.js")));
    assert!(web_path_matches("/assets/*path", "/assets").is_none());

    let home = Rc::new(Function {
        visibility: "public".to_string(),
        params: Vec::new(),
        type_params: Vec::new(),
        return_annotation: None,
        is_async: false,
        body: Vec::new(),
        ast_body: None,
        closure: 0,
    });
    let mut funcs: Functions = Table::new();
    funcs.insert("home".to_string(), home);
    assert!(web_validate_routes(&vec![route("GET", "/", "missing")], &funcs).is_err());
    assert!(web_validate_routes(&vec![route("GET", "/", "home")], &funcs).is_ok());
    assert!(web_validate_routes(&vec![route("GET", "/assets/*path", "home")], &funcs).is_ok());
    assert!(
        web_validate_route_table(&vec![route("GET", "/", "home"), route("GET", "/", "home")])
            .is_err()
    );
    assert!(
        web_validate_route_table(&vec![route("GET", "/", "home"), route("POST", "/", "home")])
            .is_ok()
    );
}

/// Serves the requests one after the other, and gives the responses and the final record.
fn serve(source: &str, requests: &[&str]) -> (Vec<String>, Value) {
    let program = parse_program(source).expect("native Web test program should parse");
    let mut replies: Vec<Value> = Vec::new();
    let mut next = 0;
    let mut numbers = 0;
    let mut responses: Vec<String> = Vec::new();
    loop {
        let mut vars = Table::new();
        let mut funcs: Functions = Table::new();
        let mut context = ExecutionContext::new();
        context.workspace = Some("/here".to_string());
        execute_ast_program_with_context(&program, &mut vars, &mut funcs, &mut context, ".")
            .expect("native Web test program should execute");
        let Some(Value::List(routes)) = vars.find("routes") else {
            panic!("route table should be a list");
        };
        context.replies = replies.iter().map(|reply| Ok(reply.copy())).collect();
        let result = web_serve_on_listener(
            "127.0.0.1:8080",
            routes,
            &funcs,
            &mut context,
            Some(requests.len()),
        );
        match &context.pending {
            None => return (responses, result.expect("the server should complete")),
            Some(call) => match call.operation.as_str() {
                "web_accept" => {
                    replies.push(Value::List(vec![encoded(requests[next].as_bytes())]));
                    next += 1;
                }
                "request_number" => {
                    numbers += 1;
                    replies.push(Value::Number(numbers));
                }
                "web_respond" => {
                    responses.push(decoded(&call.arguments[0]));
                    replies.push(Value::Nil);
                }
                other => panic!("unexpected host call: {other}"),
            },
        }
    }
}

#[test]
fn native_web_server_handles_requests_and_isolates_handler_errors() {
    let source = r#"fn home(request):
    return {"status": 200, "body": json({"path": request["path"], "request_id": request["request_id"], "body": request["body"]})}
fn user(request):
    return {"status": 200, "body": json({"id": request["params"]["id"]})}
fn boom(request):
    raise "handler failure"
fn reserved(request):
    return {"status": 200, "headers": {"Content-Length": "1"}, "body": "unsafe"}
fn invalid(request):
    return err({"status": 422, "code": "invalid_payload", "message": "payload rejected"})
let routes = [{"method": "GET", "path": "/", "handler": "home"}, {"method": "GET", "path": "/users/:id", "handler": "user"}, {"method": "GET", "path": "/boom", "handler": "boom"}, {"method": "GET", "path": "/reserved", "handler": "reserved"}, {"method": "GET", "path": "/invalid", "handler": "invalid"}]
"#;
    let oversized = format!(
        "POST / HTTP/1.1\r\nHost: localhost\r\nContent-Length: {}\r\n\r\n",
        MAX_HTTP_REQUEST_BYTES + 1
    );
    let (responses, result) = serve(
        source,
        &[
            "GET / HTTP/1.1\r\nHost: localhost\r\nX-Request-Id: test-request\r\n\r\n",
            "GET /users/42?view=summary HTTP/1.1\r\nHost: localhost\r\n\r\n",
            "GET /missing HTTP/1.1\r\nHost: localhost\r\n\r\n",
            "POST / HTTP/1.1\r\nHost: localhost\r\n\r\n",
            "GET /bad.. HTTP/1.1\r\nHost: localhost\r\n\r\n",
            &oversized,
            "GET /boom HTTP/1.1\r\nHost: localhost\r\n\r\n",
            "GET /reserved HTTP/1.1\r\nHost: localhost\r\n\r\n",
            "GET /invalid HTTP/1.1\r\nHost: localhost\r\n\r\n",
            "GET /missing HTTP/1.1\r\nHost: localhost\r\n\r\n",
        ],
    );
    let root = &responses[0];
    assert!(
        root.starts_with("HTTP/1.1 200 OK\r\n"),
        "unexpected root response: {root:?}"
    );
    assert!(root.contains("X-Request-Id: test-request\r\n"));
    assert!(root.contains(r#""path":"/""#));
    assert!(root.contains(r#""request_id":"test-request""#));

    assert!(responses[1].starts_with("HTTP/1.1 200 OK\r\n"));
    assert!(responses[1].contains(r#""id":"42""#));

    assert!(responses[2].starts_with("HTTP/1.1 404 Not Found\r\n"));
    assert!(responses[2].contains(r#""error":"not_found""#));
    assert!(responses[3].starts_with("HTTP/1.1 405 Method Not Allowed\r\n"));
    assert!(responses[4].starts_with("HTTP/1.1 400 Bad Request\r\n"));
    assert!(responses[5].starts_with("HTTP/1.1 400 Bad Request\r\n"));
    assert!(responses[6].starts_with("HTTP/1.1 500 Internal Server Error\r\n"));
    assert!(responses[6].contains(r#""error":"handler_error""#));
    assert!(responses[7].starts_with("HTTP/1.1 500 Internal Server Error\r\n"));
    assert!(responses[7].contains(r#""error":"handler_error""#));
    assert!(responses[8].starts_with("HTTP/1.1 422 Unprocessable Entity\r\n"));
    assert!(responses[8].contains(r#""error":"invalid_payload""#));
    assert!(responses[8].contains(r#""message":"payload rejected""#));
    assert!(responses[9].starts_with("HTTP/1.1 404 Not Found\r\n"));

    let Value::Dict(fields) = result else {
        panic!("native Web test server result should be a map");
    };
    assert_eq!(fields.find("address"), Some(&text("127.0.0.1:8080")));
    assert_eq!(fields.find("served"), Some(&Value::Number(10)));
}

#[test]
fn requests_are_read_from_chunks() {
    let whole = b"POST /a?b HTTP/1.1\r\nContent-Length: +5\r\nX-One: 1\r\n\r\nhello more".to_vec();
    let request = web_parse_request(&vec![whole.clone()]).expect("the request is complete");
    assert_eq!(request.method, "POST");
    assert_eq!(request.path, "/a");
    assert_eq!(request.body, "hello");
    assert_eq!(request.headers.find("x-one"), Some(&"1".to_string()));
    let mut chunks: Vec<Vec<u8>> = Vec::new();
    for byte in &whole[..whole.len() - 5] {
        assert!(web_request_waits(&chunks));
        chunks.push(vec![*byte]);
    }
    assert!(!web_request_waits(&chunks));
    assert!(web_parse_request(&chunks).is_ok());
}

#[test]
fn malformed_requests_are_refused() {
    let error = |raw: &str| web_parse_request(&vec![raw.as_bytes().to_vec()]).unwrap_err();
    assert_eq!(
        error("GET /\r\n\r\n"),
        "web_serve received a malformed HTTP request line"
    );
    assert_eq!(
        error("GET / HTTP/2\r\n\r\n"),
        "web_serve received a malformed HTTP request line"
    );
    assert_eq!(
        error("GET / HTTP/1.1\r\nbroken\r\n\r\n"),
        "web_serve received a malformed HTTP header"
    );
    assert_eq!(
        error("GET / HTTP/1.1\r\nb@d: 1\r\n\r\n"),
        "web_serve received an invalid HTTP header name"
    );
    assert_eq!(
        error("GET / HTTP/1.1\r\nA: 1\r\na: 2\r\n\r\n"),
        "web_serve received a duplicate HTTP header"
    );
    assert_eq!(
        error("GET / HTTP/1.1\r\nTransfer-Encoding: chunked\r\n\r\n"),
        "web_serve does not accept transfer-encoded request bodies"
    );
    assert_eq!(
        error("GET / HTTP/1.1\r\nContent-Length: x\r\n\r\n"),
        "web_serve received an invalid content-length"
    );
    assert_eq!(
        error("GET relative HTTP/1.1\r\n\r\n"),
        "web_serve received an invalid request path"
    );
    assert_eq!(
        error("GET / HTTP/1.1\r\nContent-Length: 9\r\n\r\nshort"),
        "web_serve received an incomplete request body"
    );
    assert_eq!(
        web_parse_request(&vec![vec![b'x'; MAX_HTTP_REQUEST_BYTES + 1]]).unwrap_err(),
        "web_serve request exceeds the 65536 byte limit"
    );
    assert_eq!(
        web_parse_request(&vec![b"GET /\xff HTTP/1.1\r\n\r\n".to_vec()]).unwrap_err(),
        "web_serve request headers are not UTF-8"
    );
}

#[test]
fn request_identifiers_are_kept_or_counted() {
    let mut context = ExecutionContext::new();
    let mut headers: Table<String> = Table::new();
    context.replies.push(Ok(Value::Number(1)));
    context.replies.push(Ok(Value::Number(2)));
    context.replies.push(Ok(Value::Number(-1)));
    assert_eq!(web_request_id(&headers, &mut context), Ok("zap-1".to_string()));
    headers.insert("x-request-id".to_string(), "bad id".to_string());
    assert_eq!(web_request_id(&headers, &mut context), Ok("zap-2".to_string()));
    assert_eq!(
        web_request_id(&headers, &mut context),
        Err("request_number failed: invalid host reply".to_string())
    );
    assert_eq!(request_id_from(&headers, u64::MAX), "zap-18446744073709551615");
    assert_eq!(
        web_request_id(&headers, &mut context),
        Err("host call pending".to_string())
    );
    assert_eq!(context.pending.as_ref().map(|call| call.operation.as_str()), Some("request_number"));
    headers.insert("x-request-id".to_string(), "ok.1_2:3-4".to_string());
    assert_eq!(web_request_id(&headers, &mut context), Ok("ok.1_2:3-4".to_string()));
    assert_eq!(request_id_from(&headers, 7), "ok.1_2:3-4");
    headers.insert("x-request-id".to_string(), "a".repeat(129));
    assert_eq!(request_id_from(&headers, 7), "zap-7");
}

#[test]
fn responses_are_written_byte_for_byte() {
    let context = ExecutionContext::new();
    let bytes = web_result_response(
        &map(vec![
            ("status", Value::Number(201)),
            ("content_type", text("text/plain")),
            ("headers", map(vec![("X-B", text("2")), ("X-A", text("1"))])),
            ("body", text("hé")),
        ]),
        "id-1",
        &context,
    )
    .expect("the response is valid");
    assert_eq!(
        String::from_utf8(bytes).unwrap(),
        "HTTP/1.1 201 Created\r\nContent-Type: text/plain\r\nContent-Length: 3\r\nConnection: close\r\nX-Content-Type-Options: nosniff\r\nCache-Control: no-store\r\nX-Request-Id: id-1\r\nX-A: 1\r\nX-B: 2\r\n\r\nhé"
    );
    assert_eq!(
        String::from_utf8(web_error_response(404, "not_found", "zap-7")).unwrap(),
        "HTTP/1.1 404 Not Found\r\nContent-Type: application/json; charset=utf-8\r\nContent-Length: 42\r\nConnection: close\r\nX-Content-Type-Options: nosniff\r\nCache-Control: no-store\r\nX-Request-Id: zap-7\r\n\r\n{\"error\":\"not_found\",\"request_id\":\"zap-7\"}"
    );
    assert!(web_response_header_is_reserved("Content-LENGTH"));
    assert!(!web_response_header_is_reserved("X-Custom"));
}

#[test]
fn invalid_responses_are_refused() {
    let context = ExecutionContext::new();
    let error = |value: Value| web_result_response(&value, "id", &context).unwrap_err();
    assert_eq!(error(Value::Nil), "web handler must return a response map");
    assert_eq!(
        error(map(vec![("status", Value::Number(99))])),
        "web handler response status must be a number from 100 to 599"
    );
    assert_eq!(
        error(map(vec![
            ("status", Value::Number(200)),
            ("body", text("a")),
            ("body_base64", text("YQ=="))
        ])),
        "web handler response cannot contain both body and body_base64"
    );
    assert_eq!(
        error(map(vec![
            ("status", Value::Number(200)),
            ("body_base64", text("*"))
        ])),
        "web handler response body_base64 is invalid"
    );
    assert_eq!(
        error(map(vec![
            ("status", Value::Number(200)),
            ("content_type", text("a\r\nb"))
        ])),
        "web handler response content type contains a forbidden newline"
    );
    assert_eq!(
        error(map(vec![
            ("status", Value::Number(200)),
            ("headers", map(vec![("X", Value::Number(1))]))
        ])),
        "web handler response headers must contain text values"
    );
    assert_eq!(
        error(Value::ResultErr(Box::new(map(vec![(
            "status",
            Value::Number(200)
        )])))),
        "web handler Result error status must be a number from 400 to 599"
    );
    assert_eq!(
        error(Value::ResultErr(Box::new(map(vec![
            ("status", Value::Number(400)),
            ("code", text("bad code"))
        ])))),
        "web handler Result error code must be a safe non-empty text token"
    );
}

#[test]
fn one_request_is_served_and_recorded() {
    let mut context = ExecutionContext::new();
    context.replies.push(Ok(Value::List(vec![
        text("127.0.0.1:9"),
        Value::List(vec![encoded(b"GET /x HTTP/1.1\r\nHost: a\r\n\r\n")]),
    ])));
    let args = vec![Value::Number(0), text("hi")];
    assert!(http_serve_once(&args, &mut context).is_err());
    let call = context.pending.as_ref().expect("the reply is asked for");
    assert_eq!(call.operation, "http_reply_once");
    assert_eq!(
        call.arguments[0],
        text("HTTP/1.1 200 OK\r\nContent-Length: 2\r\nContent-Type: text/plain; charset=utf-8\r\nConnection: close\r\n\r\nhi")
    );
    let mut context = ExecutionContext::new();
    context.replies.push(Ok(Value::List(vec![
        text("127.0.0.1:9"),
        Value::List(vec![encoded(b"GET /x HTTP/1.1\r\nHost: a\r\n\r\n")]),
    ])));
    context.replies.push(Ok(Value::Nil));
    let Value::Dict(record) = http_serve_once(&args, &mut context).expect("one request is served")
    else {
        panic!("http_serve_once should return a map");
    };
    assert_eq!(record.find("method"), Some(&text("GET")));
    assert_eq!(record.find("path"), Some(&text("/x")));
    assert_eq!(record.find("body"), Some(&text("hi")));
}
