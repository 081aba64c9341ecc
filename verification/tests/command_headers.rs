use sdkwork_invoice::command_headers::{
    stable_canonical_json_request_hash, stable_command_request_hash, validate_app_write_payload,
    validate_write_payload, parse_required_write_command_headers, write_command_header_error_to_problem,
    HeaderEntry, RequestHeaders, WebErrorKind, WriteCommandHeaderError, PROBLEM_CONTENT_TYPE,
    IDEMPOTENCY_KEY_HEADER, REQUEST_HASH_HEADER, HASH_MISMATCH_MESSAGE,
};
use sdkwork_invoice::json::{
    canonical_json_string, json_string_literal, write_payload_with_route_param,
    JsonMember, JsonValue,
};

fn text(s: &str) -> JsonValue {
    JsonValue::Text(s.to_owned())
}

fn member(key: &str, value: JsonValue) -> JsonMember {
    JsonMember { key: key.to_owned(), value }
}

fn from_serde(value: &serde_json::Value) -> JsonValue {
    match value {
        serde_json::Value::Null => JsonValue::Null,
        serde_json::Value::Bool(b) => JsonValue::Bool(*b),
        serde_json::Value::Number(n) => JsonValue::Number(n.to_string()),
        serde_json::Value::String(s) => JsonValue::Text(s.clone()),
        serde_json::Value::Array(items) => JsonValue::Array(items.iter().map(from_serde).collect()),
        serde_json::Value::Object(map) => JsonValue::Object(
            map.iter().map(|(k, v)| member(k, from_serde(v))).collect(),
        ),
    }
}

fn header(name: &str, value: &str) -> HeaderEntry {
    HeaderEntry { name: name.to_owned(), value: value.as_bytes().to_vec() }
}

#[test]
fn stable_command_request_hash_is_deterministic() {
    let first = stable_command_request_hash("scope", &["100001", "request-1"]);
    let second = stable_command_request_hash("scope", &["100001", "request-1"]);
    assert_eq!(first, second);
    assert!(!first.is_empty());
}

#[test]
fn stable_json_request_hash_matches_struct_and_value_payloads() {
    let body_json = r#"{"methodKey":"wechat_pay","displayName":"WeChat Pay","providerCode":"wechat_pay","status":"active"}"#;
    let value: serde_json::Value = serde_json::from_str(body_json).expect("json");
    let from_value = stable_canonical_json_request_hash("payment-method-upsert", &from_serde(&value));

    // The same body serialised from a struct with an unset `sortOrder` field.
    let struct_payload = JsonValue::Object(vec![
        member("methodKey", text("wechat_pay")),
        member("displayName", text("WeChat Pay")),
        member("providerCode", text("wechat_pay")),
        member("status", text("active")),
        member("sortOrder", JsonValue::Null),
    ]);
    let from_struct = stable_canonical_json_request_hash("payment-method-upsert", &struct_payload);

    assert_eq!(from_value, from_struct);
}

#[test]
fn missing_command_header_returns_bad_request_problem_detail() {
    let body = JsonValue::Object(vec![member("title", text("Example"))]);
    let problem = validate_app_write_payload(&RequestHeaders::new(), "invoices.create", &body, |_| {
        "request-1".to_owned()
    })
    .expect_err("missing headers must fail");

    assert_eq!(problem.status(), 400);
    assert_eq!(problem.content_type(), "application/problem+json");
    assert_eq!(problem.content_type(), PROBLEM_CONTENT_TYPE);
}

#[test]
fn command_hash_replaces_unsafe_characters() {
    assert_eq!(
        stable_command_request_hash("invoices.create", &["a b/c", "Ünï_ok.1"]),
        "invoices.create-a-b-c--n-_ok.1"
    );
    assert_eq!(stable_command_request_hash("", &[]), "");
    assert_eq!(stable_command_request_hash("s", &[""]), "s-");
}

#[test]
fn command_hash_is_header_safe() {
    let hash = stable_command_request_hash("scope:ü", &["{\"k\":1}", "x y"]);
    assert!(hash.chars().all(|c| c.is_ascii_alphanumeric() || "-_.".contains(c)));
    assert_eq!(hash.chars().count(), 7 + 1 + 7 + 1 + 3);
}

#[test]
fn canonical_json_sorts_keys_and_drops_nulls() {
    let value = JsonValue::Object(vec![
        member("b", JsonValue::Number("2".to_owned())),
        member("a", JsonValue::Array(vec![JsonValue::Bool(true), JsonValue::Null, text("x")])),
        member("c", JsonValue::Null),
        member("A", JsonValue::Object(vec![])),
    ]);
    assert_eq!(canonical_json_string(&value), r#"{"A":{},"a":[true,null,"x"],"b":2}"#);
}

#[test]
fn canonical_json_ignores_member_order() {
    let first = JsonValue::Object(vec![member("x", text("1")), member("y", text("2"))]);
    let second = JsonValue::Object(vec![
        member("y", text("2")),
        member("z", JsonValue::Null),
        member("x", text("1")),
    ]);
    assert_eq!(canonical_json_string(&first), canonical_json_string(&second));
    assert_eq!(
        stable_canonical_json_request_hash("s", &first),
        stable_canonical_json_request_hash("s", &second)
    );
}

#[test]
fn json_string_literal_escapes_like_serde_json() {
    let raw = "quote\" back\\ tab\t nl\n bell\u{7} é";
    assert_eq!(json_string_literal(raw), serde_json::to_string(raw).unwrap());
    assert_eq!(json_string_literal(raw), "\"quote\\\" back\\\\ tab\\t nl\\n bell\\u0007 é\"");
}

#[test]
fn canonical_text_reads_back_without_null_members() {
    let value = JsonValue::Object(vec![
        member("z", JsonValue::Array(vec![JsonValue::Null, JsonValue::Number("-1.5e3".to_owned())])),
        member("gone", JsonValue::Null),
        member("k", JsonValue::Object(vec![member("q", text("a\"b\u{1}")), member("n", JsonValue::Null)])),
        member("b", JsonValue::Bool(false)),
    ]);
    let parsed: serde_json::Value = serde_json::from_str(&canonical_json_string(&value)).expect("valid JSON");
    let expected: serde_json::Value =
        serde_json::from_str(r#"{"b":false,"k":{"q":"a\"b\u0001"},"z":[null,-1.5e3]}"#).unwrap();
    assert_eq!(parsed, expected);
}

#[test]
fn nested_null_members_do_not_change_the_hash() {
    // {"x": 1, "y": null, "o": {"b": null, "a": [null, 2]}} and {"o": {"a": [null, 2]}, "x": 1}
    let with_nulls = JsonValue::Object(vec![
        member("x", JsonValue::Number("1".to_owned())),
        member("y", JsonValue::Null),
        member(
            "o",
            JsonValue::Object(vec![
                member("b", JsonValue::Null),
                member("a", JsonValue::Array(vec![JsonValue::Null, JsonValue::Number("2".to_owned())])),
            ]),
        ),
    ]);
    let without = JsonValue::Object(vec![
        member(
            "o",
            JsonValue::Object(vec![member(
                "a",
                JsonValue::Array(vec![JsonValue::Null, JsonValue::Number("2".to_owned())]),
            )]),
        ),
        member("x", JsonValue::Number("1".to_owned())),
    ]);
    assert_eq!(canonical_json_string(&with_nulls), r#"{"o":{"a":[null,2]},"x":1}"#);
    assert_eq!(
        stable_canonical_json_request_hash("s", &with_nulls),
        stable_canonical_json_request_hash("s", &without)
    );
    let small = JsonValue::Object(vec![member("x", JsonValue::Number("1".to_owned())), member("y", JsonValue::Null)]);
    let plain = JsonValue::Object(vec![member("x", JsonValue::Number("1".to_owned()))]);
    assert_eq!(
        stable_canonical_json_request_hash("s", &small),
        stable_canonical_json_request_hash("s", &plain)
    );
}

#[test]
fn route_param_is_set_on_objects_only() {
    let body = JsonValue::Object(vec![member("cancelReason", text("r"))]);
    let payload = write_payload_with_route_param("invoiceId", "inv-1", body);
    assert_eq!(
        payload,
        JsonValue::Object(vec![member("cancelReason", text("r")), member("invoiceId", text("inv-1"))])
    );
    let replaced = write_payload_with_route_param(
        "invoiceId",
        "inv-2",
        JsonValue::Object(vec![member("invoiceId", text("old")), member("k", JsonValue::Null)]),
    );
    assert_eq!(
        replaced,
        JsonValue::Object(vec![member("invoiceId", text("inv-2")), member("k", JsonValue::Null)])
    );
    assert_eq!(write_payload_with_route_param("invoiceId", "x", JsonValue::Bool(true)), JsonValue::Bool(true));
}

fn valid_headers(hash: &str) -> RequestHeaders {
    RequestHeaders {
        entries: vec![
            header("idempotency-key", "  key-1 "),
            header("sdkwork-request-hash", hash),
        ],
    }
}

#[test]
fn write_headers_use_fallback_request_number() {
    let parsed = parse_required_write_command_headers(&valid_headers("h"), |key| format!("fallback-{key}"))
        .expect("headers");
    assert_eq!(parsed.idempotency_key, "key-1");
    assert_eq!(parsed.request_hash, "h");
    assert_eq!(parsed.request_no, "fallback-key-1");

    let mut headers = valid_headers("h");
    headers.entries.push(header("Sdkwork-Request-No", " no-7 "));
    let parsed = parse_required_write_command_headers(&headers, |_| unreachable!()).expect("headers");
    assert_eq!(parsed.request_no, "no-7");
}

#[test]
fn write_headers_report_missing_and_blank_headers() {
    let only_key = RequestHeaders { entries: vec![header("Idempotency-Key", "k")] };
    assert_eq!(
        parse_required_write_command_headers(&only_key, |_| String::new()),
        Err(WriteCommandHeaderError::MissingHeader(REQUEST_HASH_HEADER))
    );
    let blank_key = RequestHeaders {
        entries: vec![header("Idempotency-Key", "   "), header("Sdkwork-Request-Hash", "h")],
    };
    assert_eq!(
        parse_required_write_command_headers(&blank_key, |_| String::new()),
        Err(WriteCommandHeaderError::MissingHeader(IDEMPOTENCY_KEY_HEADER))
    );
    let unreadable = RequestHeaders {
        entries: vec![
            HeaderEntry { name: "idempotency-key".to_owned(), value: vec![b'k', 0xff] },
            header("Sdkwork-Request-Hash", "h"),
        ],
    };
    assert_eq!(
        parse_required_write_command_headers(&unreadable, |_| String::new()),
        Err(WriteCommandHeaderError::MissingHeader(IDEMPOTENCY_KEY_HEADER))
    );
}

#[test]
fn write_payload_must_match_its_hash() {
    let body = JsonValue::Object(vec![member("title", text("Example"))]);
    let expected = stable_canonical_json_request_hash("invoices.create", &body);
    assert_eq!(expected, "invoices.create---title---Example--");
    let accepted = validate_write_payload(&valid_headers(&format!(" {expected} ")), "invoices.create", &body, |_| {
        "n".to_owned()
    });
    assert!(accepted.is_ok());
    let refused = validate_write_payload(&valid_headers("other"), "invoices.create", &body, |_| "n".to_owned());
    assert_eq!(refused, Err(WriteCommandHeaderError::InvalidHeader(HASH_MISMATCH_MESSAGE)));
    let problem = validate_app_write_payload(&valid_headers("other"), "invoices.create", &body, |_| "n".to_owned())
        .expect_err("mismatch");
    assert_eq!(problem.kind, WebErrorKind::BadRequest);
    assert_eq!(problem.message, "Sdkwork-Request-Hash does not match the command payload");
}

#[test]
fn header_errors_become_bad_request_problems() {
    let missing = write_command_header_error_to_problem(WriteCommandHeaderError::MissingHeader("Idempotency-Key"));
    assert_eq!(missing.kind, WebErrorKind::BadRequest);
    assert_eq!(missing.message, "Idempotency-Key header is required");
    let invalid = write_command_header_error_to_problem(WriteCommandHeaderError::InvalidHeader("bad body"));
    assert_eq!(invalid.message, "bad body");
    assert_eq!(invalid.status(), 400);
}
