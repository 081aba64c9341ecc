//! What each invoice route decides: the write-command checks and inputs it
//! derives from a request before the store is called, and the reply it makes
//! of the store's answer.

use vstd::prelude::*;

use crate::command_headers::{
    ProblemDetail, WebErrorKind, RequestHeaders, status_of, AppWriteCommandHeaders, HeaderEntry,
    validate_app_write_payload, write_header_checks, write_payload_accepted, write_payload_problem,
    write_headers_with_request_no, write_headers_found, write_header_problem_message,
    HASH_MISMATCH_MESSAGE,
};
use crate::json::{
    JsonValue, JsonMember, RenderedSpec, canonical_text, rendered_members, sort_by_key,
    joined_members, json_quoted, write_payload_with_route_param, is_member_set,
    first_member_index,
};
use crate::invoice_api::{
    AppRuntimeSubject, fallback_request_no, fallback_request_no_text, total_amount_text,
    normalized_total_amount, CommerceServiceError, InvoiceRecord, InvoiceListPage,
    InvoiceItemListPage, InvoiceStatistics, InvoiceResponse, InvoiceItemResponse,
    InvoiceMutationResponse, InvoiceStatisticsResponse, PageData, CommandData, valid_paging,
    map_invoice, map_invoice_page, map_invoice_item_page, map_invoice_mutation,
    map_invoice_statistics, invoice_system_problem, not_found_problem, system_problem_of,
    invoice_response_of, mutation_response_of, offset_page_info_of, item_responses_of,
};
use crate::text::owned;

verus! {

pub open spec fn text_member(m: JsonMember, key: Seq<char>, value: String) -> bool {
    m.key@ == key && m.value == JsonValue::Text(value)
}

pub open spec fn opt_text_member(m: JsonMember, key: Seq<char>, value: Option<String>) -> bool {
    m.key@ == key && m.value == match value {
        Some(s) => JsonValue::Text(s),
        None => JsonValue::Null,
    }
}

pub open spec fn opt_json_member(m: JsonMember, key: Seq<char>, value: Option<JsonValue>) -> bool {
    m.key@ == key && m.value == match value {
        Some(v) => v,
        None => JsonValue::Null,
    }
}

/// The rendered entry of an optional string field: present when the field
/// is.
pub open spec fn push_opt_text(es: Seq<RenderedSpec>, key: Seq<char>, value: Option<String>) -> Seq<RenderedSpec> {
    match value {
        Some(s) => es.push((key, json_quoted(s@))),
        None => es,
    }
}

/// The rendered entry of an optional JSON field: present when the field is
/// and is not null.
pub open spec fn push_opt_json(es: Seq<RenderedSpec>, key: Seq<char>, value: Option<JsonValue>) -> Seq<RenderedSpec> {
    match value {
        Some(v) => if v is Null {
            es
        } else {
            es.push((key, canonical_text(v)))
        },
        None => es,
    }
}

/// The canonical text of an object whose non-null members render as `es`.
pub open spec fn object_text(es: Seq<RenderedSpec>) -> Seq<char> {
    seq!['{'] + joined_members(sort_by_key(es)) + seq!['}']
}

fn text_json(key: &str, value: String) -> (m: JsonMember)
    ensures
        text_member(m, key@, value),
{
    JsonMember { key: owned(key), value: JsonValue::Text(value) }
}

fn opt_text_json(key: &str, value: Option<String>) -> (m: JsonMember)
    ensures
        opt_text_member(m, key@, value),
{
    JsonMember {
        key: owned(key),
        value: match value {
            Some(s) => JsonValue::Text(s),
            None => JsonValue::Null,
        },
    }
}

/// The body of the create route.
#[derive(Debug)]
pub struct CreateInvoiceRequest {
    pub title: String,
    pub tax_no: Option<String>,
    pub title_type: Option<String>,
    pub total_amount: Option<JsonValue>,
    pub invoice_type: Option<String>,
    /// The JSON encoder's compact text of `total_amount`, made where the
    /// body is decoded.
    pub total_amount_text: Option<String>,
}

/// The JSON object of a create body: `title`, `taxNo`, `titleType`,
/// `totalAmount`, `type`, absent fields as null.
pub open spec fn create_request_members(ms: Seq<JsonMember>, b: CreateInvoiceRequest) -> bool {
    &&& ms.len() == 5
    &&& text_member(ms[0], "title"@, b.title)
    &&& opt_text_member(ms[1], "taxNo"@, b.tax_no)
    &&& opt_text_member(ms[2], "titleType"@, b.title_type)
    &&& opt_json_member(ms[3], "totalAmount"@, b.total_amount)
    &&& opt_text_member(ms[4], "type"@, b.invoice_type)
}

pub open spec fn create_request_entries(b: CreateInvoiceRequest) -> Seq<RenderedSpec> {
    push_opt_text(
        push_opt_json(
            push_opt_text(
                push_opt_text(seq![("title"@, json_quoted(b.title@))], "taxNo"@, b.tax_no),
                "titleType"@,
                b.title_type,
            ),
            "totalAmount"@,
            b.total_amount,
        ),
        "type"@,
        b.invoice_type,
    )
}

impl CreateInvoiceRequest {
    /// The body as the JSON object its request hash is computed over.
    pub fn into_json(self) -> (j: JsonValue)
        ensures
            j matches JsonValue::Object(ms) && create_request_members(ms@, self),
    {
        let mut ms: Vec<JsonMember> = Vec::new();
        ms.push(text_json("title", self.title));
        ms.push(opt_text_json("taxNo", self.tax_no));
        ms.push(opt_text_json("titleType", self.title_type));
        ms.push(JsonMember {
            key: owned("totalAmount"),
            value: match self.total_amount {
                Some(v) => v,
                None => JsonValue::Null,
            },
        });
        ms.push(opt_text_json("type", self.invoice_type));
        JsonValue::Object(ms)
    }
}

proof fn lemma_rendered_step(ms: Seq<JsonMember>)
    requires
        ms.len() > 0,
    ensures
        rendered_members(ms) == if ms.last().value is Null {
            rendered_members(ms.drop_last())
        } else {
            rendered_members(ms.drop_last()).push((ms.last().key@, canonical_text(ms.last().value)))
        },
{
}

proof fn lemma_create_request_text(ms: Seq<JsonMember>, b: CreateInvoiceRequest)
    requires
        create_request_members(ms, b),
    ensures
        rendered_members(ms) == create_request_entries(b),
{
    let m1 = ms.take(1);
    let m2 = ms.take(2);
    let m3 = ms.take(3);
    let m4 = ms.take(4);
    assert(m1.drop_last() =~= ms.take(0));
    assert(m2.drop_last() =~= m1);
    assert(m3.drop_last() =~= m2);
    assert(m4.drop_last() =~= m3);
    assert(ms.drop_last() =~= m4);
    lemma_rendered_step(m1);
    lemma_rendered_step(m2);
    lemma_rendered_step(m3);
    lemma_rendered_step(m4);
    lemma_rendered_step(ms);
    assert(rendered_members(ms.take(0)) =~= Seq::<RenderedSpec>::empty());
    assert(rendered_members(m1) =~= seq![("title"@, json_quoted(b.title@))]);
}

/// What the create route hands to the service once the command is checked.
#[derive(Debug)]
pub struct CreateInvoiceInput {
    pub headers: AppWriteCommandHeaders,
    pub title: String,
    pub title_type: String,
    pub tax_no: Option<String>,
    pub total_amount: String,
    pub invoice_type: String,
}

pub open spec fn opt_text_or(o: Option<String>, default: Seq<char>) -> Seq<char> {
    match o {
        Some(s) => s@,
        None => default,
    }
}

fn text_or(o: &Option<String>, default: &str) -> (r: String)
    ensures
        r@ == opt_text_or(*o, default@),
{
    match o {
        Some(s) => owned(s.as_str()),
        None => owned(default),
    }
}

/// The create route before the store: the write command is checked under
/// scope `invoices.create` against the body's JSON object, with
/// `invoice-<user>-create-<key>` as fallback request number; the title type
/// defaults to `personal`, the invoice type to `normal` and the total
/// amount to its normalised text.
pub fn prepare_create_invoice(
    subject: &AppRuntimeSubject,
    headers: &RequestHeaders,
    body: CreateInvoiceRequest,
) -> (r: Result<CreateInvoiceInput, ProblemDetail>)
    ensures
        ({
            let text = object_text(create_request_entries(body));
            let e = headers.entries@;
            match r {
                Ok(input) => {
                    &&& write_payload_accepted(e, "invoices.create"@, text)
                    &&& write_headers_with_request_no(
                        e,
                        input.headers,
                        |key: Seq<char>| fallback_request_no_text(subject.user_id@, "create"@, key),
                    )
                    &&& input.title@ == body.title@
                    &&& input.title_type@ == opt_text_or(body.title_type, "personal"@)
                    &&& (match (input.tax_no, body.tax_no) {
                        (Some(x), Some(y)) => x@ == y@,
                        (None, None) => true,
                        _ => false,
                    })
                    &&& input.total_amount@ == total_amount_text(body.total_amount_text)
                    &&& input.invoice_type@ == opt_text_or(body.invoice_type, "normal"@)
                },
                Err(p) => {
                    &&& !write_payload_accepted(e, "invoices.create"@, text)
                    &&& p.kind == WebErrorKind::BadRequest
                    &&& p.message@ == write_payload_problem(e, "invoices.create"@, text)
                },
            }
        }),
{
    let ghost b = body;
    let title = owned(body.title.as_str());
    let title_type = text_or(&body.title_type, "personal");
    let invoice_type = text_or(&body.invoice_type, "normal");
    let tax_no = match &body.tax_no {
        Some(t) => Some(owned(t.as_str())),
        None => None,
    };
    let total_amount = normalized_total_amount(&body.total_amount_text);
    let payload = body.into_json();
    proof {
        let ms = payload->Object_0@;
        lemma_create_request_text(ms, b);
        assert(canonical_text(payload) == object_text(create_request_entries(b)));
    }
    let fallback = |key: &str| -> (no: String)
        ensures
            no@ == fallback_request_no_text(subject.user_id@, "create"@, key@),
        { fallback_request_no(subject, "create", key) };
    match validate_app_write_payload(headers, "invoices.create", &payload, fallback) {
        Ok(write_headers) => Ok(CreateInvoiceInput {
            headers: write_headers,
            title,
            title_type,
            tax_no,
            total_amount,
            invoice_type,
        }),
        Err(p) => Err(p),
    }
}

/// The route parameter member appended to an object that has no member of
/// that name renders as one more entry.
proof fn lemma_route_param_rendered(
    before: Seq<JsonMember>,
    after: Seq<JsonMember>,
    key: Seq<char>,
    value: Seq<char>,
)
    requires
        is_member_set(before, after, key, value),
        first_member_index(before, key) is None,
    ensures
        rendered_members(after) == rendered_members(before).push((key, json_quoted(value))),
{
    assert(after.drop_last() =~= before);
    lemma_rendered_step(after);
}

/// The object `{"invoiceId": <id>}` of the routes whose payload is only the
/// route parameter.
pub open spec fn route_param_entries(invoice_id: Seq<char>) -> Seq<RenderedSpec> {
    seq![("invoiceId"@, json_quoted(invoice_id))]
}

fn route_param_payload(invoice_id: &str, body: JsonValue) -> (payload: JsonValue)
    requires
        body matches JsonValue::Object(ms) && first_member_index(ms@, "invoiceId"@) is None,
    ensures
        canonical_text(payload) == object_text(
            rendered_members(body->Object_0@).push(("invoiceId"@, json_quoted(invoice_id@))),
        ),
{
    let ghost before = body->Object_0@;
    let payload = write_payload_with_route_param("invoiceId", invoice_id, body);
    proof {
        lemma_route_param_rendered(before, payload->Object_0@, "invoiceId"@, invoice_id@);
    }
    payload
}

fn empty_object() -> (j: JsonValue)
    ensures
        j matches JsonValue::Object(ms) && ms@.len() == 0,
{
    JsonValue::Object(Vec::new())
}

/// The submit route before the store: the write command is checked under
/// scope `invoices.submit` against `{"invoiceId": <id>}`, with
/// `invoice-<user>-<id>-<key>` as fallback request number.
pub fn prepare_submit_invoice(
    subject: &AppRuntimeSubject,
    headers: &RequestHeaders,
    invoice_id: &str,
) -> (r: Result<AppWriteCommandHeaders, ProblemDetail>)
    ensures
        ({
            let text = object_text(route_param_entries(invoice_id@));
            let e = headers.entries@;
            match r {
                Ok(h) => write_payload_accepted(e, "invoices.submit"@, text)
                    && write_headers_with_request_no(
                    e,
                    h,
                    |key: Seq<char>| fallback_request_no_text(subject.user_id@, invoice_id@, key),
                ),
                Err(p) => !write_payload_accepted(e, "invoices.submit"@, text) && p.kind
                    == WebErrorKind::BadRequest && p.message@ == write_payload_problem(
                    e,
                    "invoices.submit"@,
                    text,
                ),
            }
        }),
{
    let body = empty_object();
    assert(rendered_members(body->Object_0@) =~= Seq::<RenderedSpec>::empty());
    let payload = route_param_payload(invoice_id, body);
    assert(Seq::<RenderedSpec>::empty().push(("invoiceId"@, json_quoted(invoice_id@))) =~= route_param_entries(invoice_id@));
    let fallback = |key: &str| -> (no: String)
        ensures
            no@ == fallback_request_no_text(subject.user_id@, invoice_id@, key@),
        { fallback_request_no(subject, invoice_id, key) };
    validate_app_write_payload(headers, "invoices.submit", &payload, fallback)
}

/// The body of the cancel route.
#[derive(Debug)]
pub struct CancelInvoiceRequest {
    pub cancel_reason: Option<String>,
}

/// The entries of a cancel payload: the body's `cancelReason` when given,
/// then the route parameter.
pub open spec fn cancel_entries(body: Option<CancelInvoiceRequest>, invoice_id: Seq<char>) -> Seq<RenderedSpec> {
    let fields = match body {
        Some(b) => push_opt_text(seq![], "cancelReason"@, b.cancel_reason),
        None => seq![],
    };
    fields.push(("invoiceId"@, json_quoted(invoice_id)))
}

pub open spec fn cancel_reason_of(body: Option<CancelInvoiceRequest>) -> Option<String> {
    match body {
        Some(b) => b.cancel_reason,
        None => None,
    }
}

/// The cancel route before the store: the write command is checked under
/// scope `invoices.cancel` against the body's object (or `{}`) with the
/// route parameter added, with `invoice-<user>-<id>-<key>` as fallback
/// request number; the cancel reason is handed on.
pub fn prepare_cancel_invoice(
    subject: &AppRuntimeSubject,
    headers: &RequestHeaders,
    invoice_id: &str,
    body: Option<CancelInvoiceRequest>,
) -> (r: Result<(AppWriteCommandHeaders, Option<String>), ProblemDetail>)
    ensures
        ({
            let text = object_text(cancel_entries(body, invoice_id@));
            let e = headers.entries@;
            match r {
                Ok((h, reason)) => write_payload_accepted(e, "invoices.cancel"@, text)
                    && write_headers_with_request_no(
                    e,
                    h,
                    |key: Seq<char>| fallback_request_no_text(subject.user_id@, invoice_id@, key),
                ) && reason == cancel_reason_of(body),
                Err(p) => !write_payload_accepted(e, "invoices.cancel"@, text) && p.kind
                    == WebErrorKind::BadRequest && p.message@ == write_payload_problem(
                    e,
                    "invoices.cancel"@,
                    text,
                ),
            }
        }),
{
    let ghost b = body;
    let (object, reason) = match body {
        Some(cancel) => {
            let reason = match &cancel.cancel_reason {
                Some(t) => Some(t.clone()),
                None => None,
            };
            let mut ms: Vec<JsonMember> = Vec::new();
            ms.push(opt_text_json("cancelReason", cancel.cancel_reason));
            (JsonValue::Object(ms), reason)
        },
        None => (empty_object(), None),
    };
    proof {
        let ms = object->Object_0@;
        reveal_strlit("cancelReason");
        reveal_strlit("invoiceId");
        if ms.len() == 1 {
            assert(ms.drop_last() =~= Seq::<JsonMember>::empty());
            lemma_rendered_step(ms);
            assert("cancelReason"@.len() == 12);
            assert("invoiceId"@.len() == 9);
            assert(ms[0].key@ != "invoiceId"@);
        }
        assert(first_member_index(ms, "invoiceId"@) is None);
        let fields = match b {
            Some(c) => push_opt_text(seq![], "cancelReason"@, c.cancel_reason),
            None => seq![],
        };
        assert(rendered_members(ms) =~= fields);
    }
    let payload = route_param_payload(invoice_id, object);
    let fallback = |key: &str| -> (no: String)
        ensures
            no@ == fallback_request_no_text(subject.user_id@, invoice_id@, key@),
        { fallback_request_no(subject, invoice_id, key) };
    match validate_app_write_payload(headers, "invoices.cancel", &payload, fallback) {
        Ok(h) => Ok((h, reason)),
        Err(p) => Err(p),
    }
}

/// The body of the update route.
#[derive(Debug)]
pub struct UpdateInvoiceRequest {
    pub bank_account: Option<String>,
    pub bank_name: Option<String>,
    pub register_address: Option<String>,
    pub register_phone: Option<String>,
    pub tax_no: Option<String>,
    pub title: Option<String>,
}

/// The entries of an update payload: the given fields, then the route
/// parameter.
pub open spec fn update_entries(b: UpdateInvoiceRequest, invoice_id: Seq<char>) -> Seq<RenderedSpec> {
    push_opt_text(
        push_opt_text(
            push_opt_text(
                push_opt_text(
                    push_opt_text(push_opt_text(seq![], "bankAccount"@, b.bank_account), "bankName"@, b.bank_name),
                    "registerAddress"@,
                    b.register_address,
                ),
                "registerPhone"@,
                b.register_phone,
            ),
            "taxNo"@,
            b.tax_no,
        ),
        "title"@,
        b.title,
    ).push(("invoiceId"@, json_quoted(invoice_id)))
}

/// What the update route hands to the service once the command is checked.
#[derive(Debug)]
pub struct UpdateInvoiceInput {
    pub headers: AppWriteCommandHeaders,
    pub bank_account: Option<String>,
    pub bank_name: Option<String>,
    pub register_address: Option<String>,
    pub register_phone: Option<String>,
    pub tax_no: Option<String>,
    pub title: Option<String>,
}

fn clone_opt(o: &Option<String>) -> (r: Option<String>)
    ensures
        r == *o,
{
    match o {
        Some(t) => Some(t.clone()),
        None => None,
    }
}

/// The update route before the store: the write command is checked under
/// scope `invoices.update` against the body's object with the route
/// parameter added, with `invoice-<user>-<id>-<key>` as fallback request
/// number; the fields are handed on.
pub fn prepare_update_invoice(
    subject: &AppRuntimeSubject,
    headers: &RequestHeaders,
    invoice_id: &str,
    body: UpdateInvoiceRequest,
) -> (r: Result<UpdateInvoiceInput, ProblemDetail>)
    ensures
        ({
            let text = object_text(update_entries(body, invoice_id@));
            let e = headers.entries@;
            match r {
                Ok(input) => {
                    &&& write_payload_accepted(e, "invoices.update"@, text)
                    &&& write_headers_with_request_no(
                        e,
                        input.headers,
                        |key: Seq<char>| fallback_request_no_text(subject.user_id@, invoice_id@, key),
                    )
                    &&& input.bank_account == body.bank_account
                    &&& input.bank_name == body.bank_name
                    &&& input.register_address == body.register_address
                    &&& input.register_phone == body.register_phone
                    &&& input.tax_no == body.tax_no
                    &&& input.title == body.title
                },
                Err(p) => {
                    &&& !write_payload_accepted(e, "invoices.update"@, text)
                    &&& p.kind == WebErrorKind::BadRequest
                    &&& p.message@ == write_payload_problem(e, "invoices.update"@, text)
                },
            }
        }),
{
    let ghost b = body;
    let bank_account = clone_opt(&body.bank_account);
    let bank_name = clone_opt(&body.bank_name);
    let register_address = clone_opt(&body.register_address);
    let register_phone = clone_opt(&body.register_phone);
    let tax_no = clone_opt(&body.tax_no);
    let title = clone_opt(&body.title);
    let mut ms: Vec<JsonMember> = Vec::new();
    ms.push(opt_text_json("bankAccount", body.bank_account));
    ms.push(opt_text_json("bankName", body.bank_name));
    ms.push(opt_text_json("registerAddress", body.register_address));
    ms.push(opt_text_json("registerPhone", body.register_phone));
    ms.push(opt_text_json("taxNo", body.tax_no));
    ms.push(opt_text_json("title", body.title));
    proof {
        let s = ms@;
        reveal_strlit("bankAccount");
        reveal_strlit("bankName");
        reveal_strlit("registerAddress");
        reveal_strlit("registerPhone");
        reveal_strlit("taxNo");
        reveal_strlit("title");
        reveal_strlit("invoiceId");
        assert("invoiceId"@.len() == 9);
        assert("bankAccount"@.len() == 11);
        assert("bankName"@.len() == 8);
        assert("registerAddress"@.len() == 15);
        assert("registerPhone"@.len() == 13);
        assert("taxNo"@.len() == 5);
        assert("title"@.len() == 5);
        assert(forall|i: int| 0 <= i < s.len() ==> #[trigger] s[i].key@ != "invoiceId"@);
        assert(first_member_index(s, "invoiceId"@) is None);
        let m1 = s.take(1);
        let m2 = s.take(2);
        let m3 = s.take(3);
        let m4 = s.take(4);
        let m5 = s.take(5);
        assert(m1.drop_last() =~= s.take(0));
        assert(m2.drop_last() =~= m1);
        assert(m3.drop_last() =~= m2);
        assert(m4.drop_last() =~= m3);
        assert(m5.drop_last() =~= m4);
        assert(s.drop_last() =~= m5);
        lemma_rendered_step(m1);
        lemma_rendered_step(m2);
        lemma_rendered_step(m3);
        lemma_rendered_step(m4);
        lemma_rendered_step(m5);
        lemma_rendered_step(s);
        assert(rendered_members(s.take(0)) =~= Seq::<RenderedSpec>::empty());
        assert(rendered_members(s).push(("invoiceId"@, json_quoted(invoice_id@))) =~= update_entries(b, invoice_id@));
    }
    let payload = route_param_payload(invoice_id, JsonValue::Object(ms));
    let fallback = |key: &str| -> (no: String)
        ensures
            no@ == fallback_request_no_text(subject.user_id@, invoice_id@, key@),
        { fallback_request_no(subject, invoice_id, key) };
    match validate_app_write_payload(headers, "invoices.update", &payload, fallback) {
        Ok(h) => Ok(UpdateInvoiceInput {
            headers: h,
            bank_account,
            bank_name,
            register_address,
            register_phone,
            tax_no,
            title,
        }),
        Err(p) => Err(p),
    }
}

/// What a route answers: data as is, a resource (`{"item": ..}`), a
/// created resource (status 201), or a problem.
#[derive(Debug)]
pub enum ApiReply<T> {
    Success(T),
    Resource(T),
    Created(T),
    Problem(ProblemDetail),
}

/// The HTTP status of a reply: 200 for data and resources, 201 for a
/// created resource, the problem's own status otherwise.
pub open spec fn reply_status<T>(reply: ApiReply<T>) -> u16 {
    match reply {
        ApiReply::Success(_) => 200,
        ApiReply::Resource(_) => 200,
        ApiReply::Created(_) => 201,
        ApiReply::Problem(p) => status_of(p.kind),
    }
}

/// A created resource is answered 201, data and resources 200, and a
/// problem with its own status: 400, 401, 404, 409 or 503 by its kind.
pub proof fn lemma_reply_statuses<T>(reply: ApiReply<T>)
    ensures
        reply is Created ==> reply_status(reply) == 201,
        (reply is Success || reply is Resource) ==> reply_status(reply) == 200,
        reply matches ApiReply::Problem(p) ==> reply_status(reply) == match p.kind {
            WebErrorKind::BadRequest => 400u16,
            WebErrorKind::MissingCredentials => 401u16,
            WebErrorKind::NotFound => 404u16,
            WebErrorKind::Conflict => 409u16,
            WebErrorKind::DependencyUnavailable => 503u16,
        },
{
}

impl<T> ApiReply<T> {
    /// The HTTP status of this reply.
    pub fn status(&self) -> (s: u16)
        ensures
            s == reply_status(*self),
    {
        match self {
            ApiReply::Success(_) => 200,
            ApiReply::Resource(_) => 200,
            ApiReply::Created(_) => 201,
            ApiReply::Problem(p) => p.status(),
        }
    }

    /// The code of the response envelope: 0 for every successful reply; a
    /// problem is sent without an envelope.
    pub fn envelope_code(&self) -> (c: Option<i64>)
        ensures
            c == if self is Problem {
                None::<i64>
            } else {
                Some(0i64)
            },
    {
        match self {
            ApiReply::Problem(_) => None,
            _ => Some(0),
        }
    }
}

pub open spec fn system_problem_reply<T>(reply: ApiReply<T>, context: Seq<char>, e: CommerceServiceError) -> bool {
    reply matches ApiReply::Problem(p) && (p.kind, p.message@) == system_problem_of(context, e.code@, e.message@)
}

/// The list route's answer: the page of invoices, or the service error
/// under "invoice read model is unavailable".
pub fn invoice_list_reply(result: Result<InvoiceListPage, CommerceServiceError>) -> (reply: ApiReply<PageData<InvoiceResponse>>)
    requires
        result matches Ok(page) ==> valid_paging(page.total, page.page, page.page_size),
    ensures
        match result {
            Ok(page) => reply matches ApiReply::Success(data) && data.items@.len() == page.items@.len()
                && (forall|i: int| 0 <= i < data.items@.len() ==> invoice_response_of(#[trigger] data.items@[i], page.items@[i]))
                && offset_page_info_of(data.page_info, page.total, page.page, page.page_size),
            Err(e) => system_problem_reply(reply, "invoice read model is unavailable"@, e),
        },
{
    match result {
        Ok(page) => ApiReply::Success(map_invoice_page(&page)),
        Err(e) => ApiReply::Problem(invoice_system_problem("invoice read model is unavailable", &e)),
    }
}

/// The detail route's answer: the invoice, not found, or the service error
/// under "invoice read model is unavailable".
pub fn invoice_detail_reply(result: Result<Option<InvoiceRecord>, CommerceServiceError>) -> (reply: ApiReply<InvoiceResponse>)
    ensures
        match result {
            Ok(Some(record)) => reply matches ApiReply::Resource(r) && invoice_response_of(r, record),
            Ok(None) => reply matches ApiReply::Problem(p) && p.kind == WebErrorKind::NotFound
                && p.message@ == "invoice was not found"@,
            Err(e) => system_problem_reply(reply, "invoice read model is unavailable"@, e),
        },
{
    match result {
        Ok(Some(record)) => ApiReply::Resource(map_invoice(&record)),
        Ok(None) => ApiReply::Problem(not_found_problem("invoice was not found")),
        Err(e) => ApiReply::Problem(invoice_system_problem("invoice read model is unavailable", &e)),
    }
}

/// The statistics route's answer: the counts, or the service error under
/// "invoice statistics read model is unavailable".
pub fn invoice_statistics_reply(result: Result<InvoiceStatistics, CommerceServiceError>) -> (reply: ApiReply<InvoiceStatisticsResponse>)
    ensures
        match result {
            Ok(s) => reply matches ApiReply::Resource(r) && r.total_invoices == s.total
                && r.pending_invoices == s.pending && r.issued_invoices == s.issued
                && r.cancelled_invoices == s.cancelled,
            Err(e) => system_problem_reply(reply, "invoice statistics read model is unavailable"@, e),
        },
{
    match result {
        Ok(statistics) => ApiReply::Resource(map_invoice_statistics(&statistics)),
        Err(e) => ApiReply::Problem(invoice_system_problem("invoice statistics read model is unavailable", &e)),
    }
}

/// The items route's answer: the page of lines, or the service error under
/// "invoice items read model is unavailable".
pub fn invoice_items_reply(result: Result<InvoiceItemListPage, CommerceServiceError>) -> (reply: ApiReply<PageData<InvoiceItemResponse>>)
    requires
        result matches Ok(page) ==> valid_paging(page.total, page.page, page.page_size),
    ensures
        match result {
            Ok(page) => reply matches ApiReply::Success(data) && item_responses_of(data.items@, page.items@)
                && offset_page_info_of(data.page_info, page.total, page.page, page.page_size),
            Err(e) => system_problem_reply(reply, "invoice items read model is unavailable"@, e),
        },
{
    match result {
        Ok(page) => ApiReply::Success(map_invoice_item_page(&page)),
        Err(e) => ApiReply::Problem(invoice_system_problem("invoice items read model is unavailable", &e)),
    }
}

/// The create route's answer: the created invoice with the requested title
/// and types, or the service error under "invoice create command failed".
pub fn create_invoice_reply(result: Result<InvoiceRecord, CommerceServiceError>, input: &CreateInvoiceInput) -> (reply: ApiReply<InvoiceMutationResponse>)
    ensures
        match result {
            Ok(record) => reply matches ApiReply::Created(r) && mutation_response_of(
                r,
                record,
                input.title@,
                input.title_type@,
                input.invoice_type@,
            ),
            Err(e) => system_problem_reply(reply, "invoice create command failed"@, e),
        },
{
    match result {
        Ok(record) => ApiReply::Created(map_invoice_mutation(
            &record,
            input.title.as_str(),
            input.title_type.as_str(),
            input.invoice_type.as_str(),
        )),
        Err(e) => ApiReply::Problem(invoice_system_problem("invoice create command failed", &e)),
    }
}

/// The submit route's answer: the submitted invoice titled after its first
/// line, as a personal normal invoice, or the service error under "invoice
/// submit command failed".
pub fn submit_invoice_reply(result: Result<InvoiceRecord, CommerceServiceError>) -> (reply: ApiReply<InvoiceMutationResponse>)
    ensures
        match result {
            Ok(record) => reply matches ApiReply::Created(r) && mutation_response_of(
                r,
                record,
                seq![],
                "personal"@,
                "normal"@,
            ),
            Err(e) => system_problem_reply(reply, "invoice submit command failed"@, e),
        },
{
    match result {
        Ok(record) => {
            let title = if record.items.len() > 0 {
                owned(record.items[0].title.as_str())
            } else {
                String::new()
            };
            ApiReply::Created(map_invoice_mutation(&record, title.as_str(), "personal", "normal"))
        },
        Err(e) => ApiReply::Problem(invoice_system_problem("invoice submit command failed", &e)),
    }
}

/// The cancel route's answer: an accepted command on the invoice with status
/// `cancelled`, or the service error under "invoice cancel command failed".
pub fn cancel_invoice_reply(result: Result<(), CommerceServiceError>, invoice_id: &str) -> (reply: ApiReply<CommandData>)
    ensures
        match result {
            Ok(()) => reply matches ApiReply::Created(c) && c.accepted
                && (c.resource_id matches Some(id) && id@ == invoice_id@)
                && (c.status matches Some(st) && st@ == "cancelled"@),
            Err(e) => system_problem_reply(reply, "invoice cancel command failed"@, e),
        },
{
    match result {
        Ok(()) => ApiReply::Created(CommandData {
            accepted: true,
            resource_id: Some(owned(invoice_id)),
            status: Some(owned("cancelled")),
        }),
        Err(e) => ApiReply::Problem(invoice_system_problem("invoice cancel command failed", &e)),
    }
}

/// The update route's answer: the updated invoice with the new title (or
/// its first line's), as a personal normal invoice, or the service error
/// under "invoice update command failed".
pub fn update_invoice_reply(result: Result<InvoiceRecord, CommerceServiceError>, title: &Option<String>) -> (reply: ApiReply<InvoiceMutationResponse>)
    ensures
        match result {
            Ok(record) => reply matches ApiReply::Resource(r) && mutation_response_of(
                r,
                record,
                opt_text_or(*title, seq![]),
                "personal"@,
                "normal"@,
            ),
            Err(e) => system_problem_reply(reply, "invoice update command failed"@, e),
        },
{
    match result {
        Ok(record) => {
            let shown = text_or(title, "");
            proof {
                reveal_strlit("");
            }
            ApiReply::Resource(map_invoice_mutation(&record, shown.as_str(), "personal", "normal"))
        },
        Err(e) => ApiReply::Problem(invoice_system_problem("invoice update command failed", &e)),
    }
}

} // verus!
