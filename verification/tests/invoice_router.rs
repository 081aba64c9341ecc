use sdkwork_invoice::command_headers::{HeaderEntry, RequestHeaders, WebErrorKind};
use sdkwork_invoice::invoice_api::{
    fallback_request_no, invoice_system_problem, map_invoice, map_invoice_item_page,
    map_invoice_mutation, map_invoice_page, normalized_total_amount, offset_page_info,
    AppRuntimeSubject, CommerceServiceError, InvoiceItemListPage, InvoiceItemRecord,
    InvoiceListPage, InvoiceRecord, PageMode,
};
use sdkwork_invoice::json::{JsonMember, JsonValue};
use sdkwork_invoice::routes::{
    cancel_invoice_reply, create_invoice_reply, invoice_detail_reply, prepare_cancel_invoice,
    prepare_create_invoice, prepare_submit_invoice, prepare_update_invoice, submit_invoice_reply,
    update_invoice_reply, ApiReply, CancelInvoiceRequest, CreateInvoiceRequest,
    UpdateInvoiceRequest,
};
use sdkwork_invoice::command_headers::stable_command_request_hash;

fn item(id: &str, invoice_id: &str, title: &str) -> InvoiceItemRecord {
    InvoiceItemRecord {
        id: id.to_owned(),
        tenant_id: "t1".to_owned(),
        invoice_id: invoice_id.to_owned(),
        order_item_id: None,
        title: title.to_owned(),
        amount: "10.00".to_owned(),
        tax_amount: "0.00".to_owned(),
        created_at: "100".to_owned(),
    }
}

fn record(items: Vec<InvoiceItemRecord>) -> InvoiceRecord {
    InvoiceRecord {
        id: "invoice-1".to_owned(),
        tenant_id: "t1".to_owned(),
        organization_id: None,
        owner_user_id: "u1".to_owned(),
        order_id: "manual-invoice-1".to_owned(),
        payment_id: "manual-payment-invoice-1".to_owned(),
        title_id: "title-1".to_owned(),
        status: "draft".to_owned(),
        invoice_no: Some("NO-1".to_owned()),
        invoice_code: None,
        document_url: None,
        created_at: "100".to_owned(),
        issued_at: None,
        updated_at: "200".to_owned(),
        total_amount: "10.00".to_owned(),
        items,
    }
}

fn subject() -> AppRuntimeSubject {
    AppRuntimeSubject { tenant_id: "t1".to_owned(), organization_id: None, user_id: "u1".to_owned() }
}

fn headers(hash: &str) -> RequestHeaders {
    RequestHeaders {
        entries: vec![
            HeaderEntry { name: "idempotency-key".to_owned(), value: b"key-1".to_vec() },
            HeaderEntry { name: "sdkwork-request-hash".to_owned(), value: hash.as_bytes().to_vec() },
        ],
    }
}

#[test]
fn item_page_mapping_reports_total_and_has_more() {
    let page = InvoiceItemListPage::new(Vec::new(), 5, 2, 2).expect("item page");
    let mapped = map_invoice_item_page(&page);
    assert_eq!(mapped.page_info.page, Some(2));
    assert_eq!(mapped.page_info.page_size, Some(2));
    assert_eq!(mapped.page_info.total_items.as_deref(), Some("5"));
    assert_eq!(mapped.page_info.total_pages, Some(3));
    assert_eq!(mapped.page_info.has_more, Some(true));
}

#[test]
fn cancellation_create_response_uses_201_and_data_item() {
    let reply = cancel_invoice_reply(Ok(()), "invoice-1");
    assert_eq!(reply.status(), 201);
    assert_eq!(reply.envelope_code(), Some(0));
    match reply {
        ApiReply::Created(data) => {
            assert!(data.accepted);
            assert_eq!(data.resource_id.as_deref(), Some("invoice-1"));
            assert_eq!(data.status.as_deref(), Some("cancelled"));
        }
        other => panic!("unexpected reply {other:?}"),
    }
}

#[test]
fn page_info_edges() {
    let last = offset_page_info(4, 2, 2);
    assert_eq!(last.mode, PageMode::Offset);
    assert_eq!(last.total_pages, Some(2));
    assert_eq!(last.has_more, Some(false));
    assert_eq!(last.next_cursor, None);
    let empty = offset_page_info(0, 1, 20);
    assert_eq!(empty.total_pages, Some(0));
    assert_eq!(empty.total_items.as_deref(), Some("0"));
    let huge = offset_page_info(i64::MAX, 1, 10);
    assert_eq!(huge.total_pages, Some((i64::MAX / 10) as i32));
    assert_eq!(huge.total_items.as_deref(), Some("9223372036854775807"));
    assert!(InvoiceItemListPage::new(Vec::new(), 5, 1, 0).is_err());
    assert!(InvoiceItemListPage::new(Vec::new(), 5, 1, i64::MIN).is_err());
    assert!(InvoiceListPage::new(Vec::new(), i64::MIN, 1, -1).is_err());
    let negative = offset_page_info(-3, 1, 2);
    assert_eq!(negative.total_pages, Some(-1));
    assert_eq!(negative.total_items.as_deref(), Some("-3"));
    let backwards = offset_page_info(5, -1, 2);
    assert_eq!(backwards.page, Some(-1));
    assert_eq!(backwards.has_more, Some(true));
    assert!(InvoiceListPage::new(Vec::new(), 1, i64::MAX, 2).is_err());
}

#[test]
fn invoice_page_maps_each_invoice() {
    let page = InvoiceListPage::new(vec![record(vec![item("i1", "invoice-1", "Line")])], 1, 1, 20).expect("page");
    let mapped = map_invoice_page(&page);
    assert_eq!(mapped.items.len(), 1);
    assert_eq!(mapped.items[0].id, "invoice-1");
    assert_eq!(mapped.items[0].invoice_no.as_deref(), Some("NO-1"));
    assert_eq!(mapped.items[0].items[0].title, "Line");
    assert_eq!(mapped.page_info.has_more, Some(false));
    let single = map_invoice(&page.items[0]);
    assert_eq!(single.total_amount, "10.00");
}

#[test]
fn mutation_title_falls_back_to_first_line() {
    let value = record(vec![item("i1", "invoice-1", "First line"), item("i2", "invoice-1", "Second")]);
    let given = map_invoice_mutation(&value, "Given", "company", "special");
    assert_eq!(given.title, "Given");
    assert_eq!(given.title_type, "company");
    assert_eq!(given.invoice_type, "special");
    let fallback = map_invoice_mutation(&value, "", "personal", "normal");
    assert_eq!(fallback.title, "First line");
    let none = map_invoice_mutation(&record(Vec::new()), "", "personal", "normal");
    assert_eq!(none.title, "");
}

#[test]
fn service_errors_map_to_problems() {
    let cases = [
        ("validation", WebErrorKind::BadRequest, "m"),
        ("unauthenticated", WebErrorKind::MissingCredentials, "m"),
        ("unauthorized", WebErrorKind::MissingCredentials, "m"),
        ("not-found", WebErrorKind::NotFound, "m"),
        ("conflict", WebErrorKind::Conflict, "m"),
        ("storage", WebErrorKind::DependencyUnavailable, "invoice read model is unavailable: m"),
    ];
    for (code, kind, message) in cases {
        let problem = invoice_system_problem("invoice read model is unavailable", &CommerceServiceError::new(code, "m"));
        assert_eq!(problem.kind, kind);
        assert_eq!(problem.message, message);
    }
    assert_eq!(invoice_system_problem("c", &CommerceServiceError::storage("x")).status(), 503);
}

#[test]
fn fallback_request_number_format() {
    assert_eq!(fallback_request_no(&subject(), "create", "key-1"), "invoice-u1-create-key-1");
}

#[test]
fn total_amount_normalisation() {
    let encoded = |v: serde_json::Value| Some(v.to_string());
    assert_eq!(normalized_total_amount(&None), "0.00");
    assert_eq!(normalized_total_amount(&encoded(serde_json::Value::from(12.5))), "12.5");
    assert_eq!(normalized_total_amount(&encoded(serde_json::Value::from("12.50"))), "12.50");
    assert_eq!(normalized_total_amount(&encoded(serde_json::Value::from(""))), "0.00");
    assert_eq!(normalized_total_amount(&encoded(serde_json::Value::Null)), "null");
}

fn create_body() -> CreateInvoiceRequest {
    CreateInvoiceRequest {
        title: "Example".to_owned(),
        tax_no: None,
        title_type: None,
        total_amount: Some(JsonValue::Number("9.9".to_owned())),
        invoice_type: Some("special".to_owned()),
        total_amount_text: Some("9.9".to_owned()),
    }
}

#[test]
fn create_route_checks_the_command_and_defaults_its_inputs() {
    let canonical = r#"{"title":"Example","totalAmount":9.9,"type":"special"}"#;
    let hash = stable_command_request_hash("invoices.create", &[canonical]);
    let input = prepare_create_invoice(&subject(), &headers(&hash), create_body()).expect("accepted");
    assert_eq!(input.headers.request_no, "invoice-u1-create-key-1");
    assert_eq!(input.title, "Example");
    assert_eq!(input.title_type, "personal");
    assert_eq!(input.invoice_type, "special");
    assert_eq!(input.total_amount, "9.9");
    let refused = prepare_create_invoice(&subject(), &headers("wrong"), create_body()).expect_err("refused");
    assert_eq!(refused.kind, WebErrorKind::BadRequest);

    match create_invoice_reply(Ok(record(Vec::new())), &input) {
        ApiReply::Created(body) => {
            assert_eq!(body.title, "Example");
            assert_eq!(body.invoice_type, "special");
        }
        other => panic!("unexpected reply {other:?}"),
    }
    match create_invoice_reply(Err(CommerceServiceError::conflict("busy")), &input) {
        ApiReply::Problem(p) => assert_eq!(p.kind, WebErrorKind::Conflict),
        other => panic!("unexpected reply {other:?}"),
    }
}

#[test]
fn submit_route_hashes_the_route_parameter() {
    let hash = stable_command_request_hash("invoices.submit", &[r#"{"invoiceId":"invoice-1"}"#]);
    let h = prepare_submit_invoice(&subject(), &headers(&hash), "invoice-1").expect("accepted");
    assert_eq!(h.request_no, "invoice-u1-invoice-1-key-1");
    match submit_invoice_reply(Ok(record(vec![item("i1", "invoice-1", "Line")]))) {
        ApiReply::Created(body) => {
            assert_eq!(body.title, "Line");
            assert_eq!(body.title_type, "personal");
        }
        other => panic!("unexpected reply {other:?}"),
    }
}

#[test]
fn cancel_route_hashes_body_and_route_parameter() {
    let hash = stable_command_request_hash("invoices.cancel", &[r#"{"cancelReason":"dup","invoiceId":"invoice-1"}"#]);
    let body = CancelInvoiceRequest { cancel_reason: Some("dup".to_owned()) };
    let (_, reason) = prepare_cancel_invoice(&subject(), &headers(&hash), "invoice-1", Some(body)).expect("accepted");
    assert_eq!(reason.as_deref(), Some("dup"));
    let bare = stable_command_request_hash("invoices.cancel", &[r#"{"invoiceId":"invoice-1"}"#]);
    let (_, none) = prepare_cancel_invoice(&subject(), &headers(&bare), "invoice-1", None).expect("accepted");
    assert_eq!(none, None);
    let unset = CancelInvoiceRequest { cancel_reason: None };
    assert!(prepare_cancel_invoice(&subject(), &headers(&bare), "invoice-1", Some(unset)).is_ok());
}

#[test]
fn update_route_hashes_given_fields() {
    let hash = stable_command_request_hash("invoices.update", &[r#"{"invoiceId":"invoice-1","title":"New"}"#]);
    let body = UpdateInvoiceRequest {
        bank_account: None,
        bank_name: None,
        register_address: None,
        register_phone: None,
        tax_no: None,
        title: Some("New".to_owned()),
    };
    let input = prepare_update_invoice(&subject(), &headers(&hash), "invoice-1", body).expect("accepted");
    assert_eq!(input.title.as_deref(), Some("New"));
    match update_invoice_reply(Ok(record(Vec::new())), &input.title) {
        ApiReply::Resource(body) => assert_eq!(body.title, "New"),
        other => panic!("unexpected reply {other:?}"),
    }
}

#[test]
fn detail_reply_reports_missing_invoices() {
    match invoice_detail_reply(Ok(None)) {
        ApiReply::Problem(p) => {
            assert_eq!(p.kind, WebErrorKind::NotFound);
            assert_eq!(p.message, "invoice was not found");
            assert_eq!(p.status(), 404);
        }
        other => panic!("unexpected reply {other:?}"),
    }
    assert!(matches!(invoice_detail_reply(Ok(Some(record(Vec::new())))), ApiReply::Resource(_)));
    let member = JsonMember { key: "k".to_owned(), value: JsonValue::Null };
    assert_eq!(member.key, "k");
}
