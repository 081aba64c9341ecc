//! The invoice application API's own logic: the records it reads, the
//! response bodies it writes, page information, the mapping of service
//! errors to problems, and what each route decides before and after the
//! store is called.

use vstd::prelude::*;

use crate::command_headers::{
    ProblemDetail, WebErrorKind, RequestHeaders, AppWriteCommandHeaders, validate_app_write_payload,
    write_header_checks, optional_header_outcome, REQUEST_NO_HEADER, HASH_MISMATCH_MESSAGE,
    write_header_problem_message, command_request_hash,
};
use crate::text::{
    owned, push_str, int_decimal, i64_decimal, trimmed, trim_matches_char, signed_decimal_value,
    lemma_int_decimal_reads_back, lemma_trim_matches_char_shape,
};
use crate::command_headers::status_of;

verus! {

/// An error reported by the invoice service: a machine code and a message.
#[derive(Debug, Clone, PartialEq, Eq)]
pub struct CommerceServiceError {
    pub code: String,
    pub message: String,
}

/// One line of an invoice.
#[derive(Debug, Clone, PartialEq, Eq)]
pub struct InvoiceItemRecord {
    pub id: String,
    pub tenant_id: String,
    pub invoice_id: String,
    pub order_item_id: Option<String>,
    pub title: String,
    pub amount: String,
    pub tax_amount: String,
    pub created_at: String,
}

/// An invoice with its lines.
#[derive(Debug, Clone, PartialEq, Eq)]
pub struct InvoiceRecord {
    pub id: String,
    pub tenant_id: String,
    pub organization_id: Option<String>,
    pub owner_user_id: String,
    pub order_id: String,
    pub payment_id: String,
    pub title_id: String,
    pub status: String,
    pub invoice_no: Option<String>,
    pub invoice_code: Option<String>,
    pub document_url: Option<String>,
    pub created_at: String,
    pub issued_at: Option<String>,
    pub updated_at: String,
    pub total_amount: String,
    pub items: Vec<InvoiceItemRecord>,
}

/// Counts of a user's invoices by state.
#[derive(Debug, Clone, Copy, PartialEq, Eq)]
pub struct InvoiceStatistics {
    pub total: i64,
    pub pending: i64,
    pub issued: i64,
    pub cancelled: i64,
}

/// An invoice line as the API returns it.
#[derive(Debug, Clone, PartialEq, Eq)]
pub struct InvoiceItemResponse {
    pub id: String,
    pub invoice_id: String,
    pub order_item_id: Option<String>,
    pub title: String,
    pub amount: String,
    pub tax_amount: String,
    pub created_at: String,
}

/// An invoice as the API returns it.
#[derive(Debug, Clone, PartialEq, Eq)]
pub struct InvoiceResponse {
    pub id: String,
    pub order_id: String,
    pub payment_id: String,
    pub title_id: String,
    pub status: String,
    pub invoice_no: Option<String>,
    pub invoice_code: Option<String>,
    pub document_url: Option<String>,
    pub created_at: String,
    pub issued_at: Option<String>,
    pub updated_at: String,
    pub total_amount: String,
    pub items: Vec<InvoiceItemResponse>,
}

/// The body returned by the invoice write commands.
#[derive(Debug, Clone, PartialEq, Eq)]
pub struct InvoiceMutationResponse {
    pub invoice_id: String,
    pub status: String,
    pub title: String,
    pub title_type: String,
    pub total_amount: String,
    pub invoice_type: String,
    pub created_at: String,
    pub updated_at: String,
}

/// How a page was selected.
#[derive(Debug, Clone, Copy, PartialEq, Eq)]
pub enum PageMode {
    Offset,
}

/// Paging information of a list response.
#[derive(Debug, Clone, PartialEq, Eq)]
pub struct PageInfo {
    pub mode: PageMode,
    pub page: Option<i32>,
    pub page_size: Option<i32>,
    pub total_items: Option<String>,
    pub total_pages: Option<i32>,
    pub next_cursor: Option<String>,
    pub has_more: Option<bool>,
}

/// A page of a list response.
#[derive(Debug, Clone, PartialEq, Eq)]
pub struct PageData<T> {
    pub items: Vec<T>,
    pub page_info: PageInfo,
}

/// The answer to a command that has no resource body of its own.
#[derive(Debug, Clone, PartialEq, Eq)]
pub struct CommandData {
    pub accepted: bool,
    pub resource_id: Option<String>,
    pub status: Option<String>,
}

pub open spec fn same_opt_text(a: Option<String>, b: Option<String>) -> bool {
    match (a, b) {
        (Some(x), Some(y)) => x@ == y@,
        (None, None) => true,
        _ => false,
    }
}

fn clone_text(s: &String) -> (r: String)
    ensures
        r@ == s@,
{
    owned(s.as_str())
}

fn clone_opt_text(s: &Option<String>) -> (r: Option<String>)
    ensures
        same_opt_text(r, *s),
{
    match s {
        Some(t) => Some(clone_text(t)),
        None => None,
    }
}

/// The response for an invoice line carries its fields unchanged.
pub open spec fn item_response_of(r: InvoiceItemResponse, v: InvoiceItemRecord) -> bool {
    &&& r.id@ == v.id@
    &&& r.invoice_id@ == v.invoice_id@
    &&& same_opt_text(r.order_item_id, v.order_item_id)
    &&& r.title@ == v.title@
    &&& r.amount@ == v.amount@
    &&& r.tax_amount@ == v.tax_amount@
    &&& r.created_at@ == v.created_at@
}

pub fn map_invoice_item(value: &InvoiceItemRecord) -> (r: InvoiceItemResponse)
    ensures
        item_response_of(r, *value),
{
    InvoiceItemResponse {
        id: clone_text(&value.id),
        invoice_id: clone_text(&value.invoice_id),
        order_item_id: clone_opt_text(&value.order_item_id),
        title: clone_text(&value.title),
        amount: clone_text(&value.amount),
        tax_amount: clone_text(&value.tax_amount),
        created_at: clone_text(&value.created_at),
    }
}

/// An invoice line's response shows each of the line's fields as the
/// record holds it: its id, invoice, order line, title, amount, tax amount
/// and creation time.
pub proof fn lemma_item_response_shows_the_line(r: InvoiceItemResponse, v: InvoiceItemRecord)
    requires
        item_response_of(r, v),
    ensures
        r.id@ == v.id@,
        r.invoice_id@ == v.invoice_id@,
        r.order_item_id is Some <==> v.order_item_id is Some,
        r.order_item_id is Some ==> r.order_item_id.unwrap()@ == v.order_item_id.unwrap()@,
        r.title@ == v.title@,
        r.amount@ == v.amount@,
        r.tax_amount@ == v.tax_amount@,
        r.created_at@ == v.created_at@,
{
}

/// Each response line answers the record line at the same position.
pub open spec fn item_responses_of(r: Seq<InvoiceItemResponse>, v: Seq<InvoiceItemRecord>) -> bool {
    r.len() == v.len() && forall|i: int| 0 <= i < r.len() ==> item_response_of(#[trigger] r[i], v[i])
}

fn map_invoice_items(values: &Vec<InvoiceItemRecord>) -> (r: Vec<InvoiceItemResponse>)
    ensures
        item_responses_of(r@, values@),
{
    let mut out: Vec<InvoiceItemResponse> = Vec::new();
    for i in 0..values.len()
        invariant
            item_responses_of(out@, values@.take(i as int)),
    {
        out.push(map_invoice_item(&values[i]));
        assert(item_responses_of(out@, values@.take(i + 1)));
    }
    assert(values@.take(values@.len() as int) =~= values@);
    out
}

/// The response for an invoice carries its fields and its lines unchanged.
pub open spec fn invoice_response_of(r: InvoiceResponse, v: InvoiceRecord) -> bool {
    &&& r.id@ == v.id@
    &&& r.order_id@ == v.order_id@
    &&& r.payment_id@ == v.payment_id@
    &&& r.title_id@ == v.title_id@
    &&& r.status@ == v.status@
    &&& same_opt_text(r.invoice_no, v.invoice_no)
    &&& same_opt_text(r.invoice_code, v.invoice_code)
    &&& same_opt_text(r.document_url, v.document_url)
    &&& r.created_at@ == v.created_at@
    &&& same_opt_text(r.issued_at, v.issued_at)
    &&& r.updated_at@ == v.updated_at@
    &&& r.total_amount@ == v.total_amount@
    &&& item_responses_of(r.items@, v.items@)
}

/// An invoice's response shows each of the invoice's fields as the record
/// holds it (its creation and update times each in their own place), and
/// its lines in order, each shown as the record line at its position.
pub proof fn lemma_invoice_response_shows_the_invoice(r: InvoiceResponse, v: InvoiceRecord)
    requires
        invoice_response_of(r, v),
    ensures
        r.id@ == v.id@,
        r.order_id@ == v.order_id@,
        r.payment_id@ == v.payment_id@,
        r.title_id@ == v.title_id@,
        r.status@ == v.status@,
        r.invoice_no is Some <==> v.invoice_no is Some,
        r.invoice_no is Some ==> r.invoice_no.unwrap()@ == v.invoice_no.unwrap()@,
        r.invoice_code is Some <==> v.invoice_code is Some,
        r.invoice_code is Some ==> r.invoice_code.unwrap()@ == v.invoice_code.unwrap()@,
        r.document_url is Some <==> v.document_url is Some,
        r.document_url is Some ==> r.document_url.unwrap()@ == v.document_url.unwrap()@,
        r.created_at@ == v.created_at@,
        r.issued_at is Some <==> v.issued_at is Some,
        r.issued_at is Some ==> r.issued_at.unwrap()@ == v.issued_at.unwrap()@,
        r.updated_at@ == v.updated_at@,
        r.total_amount@ == v.total_amount@,
        r.items@.len() == v.items@.len(),
        forall|i: int|
            0 <= i < r.items@.len() ==> (#[trigger] r.items@[i]).amount@ == v.items@[i].amount@
                && r.items@[i].tax_amount@ == v.items@[i].tax_amount@ && r.items@[i].id@
                == v.items@[i].id@ && r.items@[i].invoice_id@ == v.items@[i].invoice_id@
                && r.items@[i].title@ == v.items@[i].title@ && r.items@[i].created_at@
                == v.items@[i].created_at@,
{
    assert forall|i: int| 0 <= i < r.items@.len() implies (#[trigger] r.items@[i]).amount@
        == v.items@[i].amount@ && r.items@[i].tax_amount@ == v.items@[i].tax_amount@
        && r.items@[i].id@ == v.items@[i].id@ && r.items@[i].invoice_id@ == v.items@[i].invoice_id@
        && r.items@[i].title@ == v.items@[i].title@ && r.items@[i].created_at@
        == v.items@[i].created_at@ by {
        lemma_item_response_shows_the_line(r.items@[i], v.items@[i]);
    }
}

/// A mutation response shows the invoice's id, status, total and times as
/// the record holds them, the requested types, and as title the requested
/// one when it is not empty, else the first line's title, else nothing.
pub proof fn lemma_mutation_response_shows_the_invoice(
    r: InvoiceMutationResponse,
    v: InvoiceRecord,
    title: Seq<char>,
    title_type: Seq<char>,
    invoice_type: Seq<char>,
)
    requires
        mutation_response_of(r, v, title, title_type, invoice_type),
    ensures
        r.invoice_id@ == v.id@,
        r.status@ == v.status@,
        title.len() > 0 ==> r.title@ == title,
        title.len() == 0 && v.items@.len() > 0 ==> r.title@ == v.items@[0].title@,
        title.len() == 0 && v.items@.len() == 0 ==> r.title@.len() == 0,
        r.title_type@ == title_type,
        r.invoice_type@ == invoice_type,
        r.total_amount@ == v.total_amount@,
        r.created_at@ == v.created_at@,
        r.updated_at@ == v.updated_at@,
{
}

pub fn map_invoice(value: &InvoiceRecord) -> (r: InvoiceResponse)
    ensures
        invoice_response_of(r, *value),
{
    InvoiceResponse {
        id: clone_text(&value.id),
        order_id: clone_text(&value.order_id),
        payment_id: clone_text(&value.payment_id),
        title_id: clone_text(&value.title_id),
        status: clone_text(&value.status),
        invoice_no: clone_opt_text(&value.invoice_no),
        invoice_code: clone_opt_text(&value.invoice_code),
        document_url: clone_opt_text(&value.document_url),
        created_at: clone_text(&value.created_at),
        issued_at: clone_opt_text(&value.issued_at),
        updated_at: clone_text(&value.updated_at),
        total_amount: clone_text(&value.total_amount),
        items: map_invoice_items(&value.items),
    }
}

/// The title a mutation response shows: the given title, or, when that is
/// empty, the title of the invoice's first line (empty when it has none).
pub open spec fn mutation_title(value: InvoiceRecord, title: Seq<char>) -> Seq<char> {
    if title.len() == 0 {
        if value.items@.len() > 0 {
            value.items@[0].title@
        } else {
            seq![]
        }
    } else {
        title
    }
}

pub open spec fn mutation_response_of(
    r: InvoiceMutationResponse,
    value: InvoiceRecord,
    title: Seq<char>,
    title_type: Seq<char>,
    invoice_type: Seq<char>,
) -> bool {
    &&& r.invoice_id@ == value.id@
    &&& r.status@ == value.status@
    &&& r.title@ == mutation_title(value, title)
    &&& r.title_type@ == title_type
    &&& r.total_amount@ == value.total_amount@
    &&& r.invoice_type@ == invoice_type
    &&& r.created_at@ == value.created_at@
    &&& r.updated_at@ == value.updated_at@
}

pub fn map_invoice_mutation(
    value: &InvoiceRecord,
    title: &str,
    title_type: &str,
    invoice_type: &str,
) -> (r: InvoiceMutationResponse)
    ensures
        mutation_response_of(r, *value, title@, title_type@, invoice_type@),
{
    let shown_title = if title.is_empty() {
        if value.items.len() > 0 {
            clone_text(&value.items[0].title)
        } else {
            String::new()
        }
    } else {
        owned(title)
    };
    InvoiceMutationResponse {
        invoice_id: clone_text(&value.id),
        status: clone_text(&value.status),
        title: shown_title,
        title_type: owned(title_type),
        total_amount: clone_text(&value.total_amount),
        invoice_type: owned(invoice_type),
        created_at: clone_text(&value.created_at),
        updated_at: clone_text(&value.updated_at),
    }
}

/// A page of invoices as the service returns it.
#[derive(Debug, Clone, PartialEq, Eq)]
pub struct InvoiceListPage {
    pub items: Vec<InvoiceRecord>,
    pub total: i64,
    pub page: i64,
    pub page_size: i64,
}

/// A page of invoice lines as the service returns it.
#[derive(Debug, Clone, PartialEq, Eq)]
pub struct InvoiceItemListPage {
    pub items: Vec<InvoiceItemRecord>,
    pub total: i64,
    pub page: i64,
    pub page_size: i64,
}

/// `total + (page_size - 1)`, saturating at the bounds of `i64`.
pub open spec fn saturating_page_sum(total: i64, page_size: i64) -> int {
    let s = total + (page_size - 1);
    if s > i64::MAX {
        i64::MAX as int
    } else if s < i64::MIN {
        i64::MIN as int
    } else {
        s
    }
}

/// Integer division rounding toward zero, as `i64` division does.
pub open spec fn div_toward_zero(x: int, d: int) -> int {
    if x == 0 {
        0
    } else if x > 0 && d > 0 {
        x / d
    } else if x < 0 && d < 0 {
        (-x) / (-d)
    } else if x < 0 {
        -((-x) / d)
    } else {
        -(x / (-d))
    }
}

/// Paging numbers whose page information can be computed without
/// arithmetic overflow or division by zero: a page size that is neither 0
/// nor `i64::MIN`, a first index (`page * page_size`) that fits in an
/// `i64`, and a page count that does too.
pub open spec fn valid_paging(total: i64, page: i64, page_size: i64) -> bool {
    &&& page_size != 0
    &&& page_size != i64::MIN
    &&& i64::MIN <= page * page_size <= i64::MAX
    &&& !(saturating_page_sum(total, page_size) == i64::MIN && page_size == -1)
}

/// The number of pages: `total + page_size - 1` (saturating) divided by the
/// page size, rounded toward zero.
pub open spec fn total_pages_of(total: i64, page_size: i64) -> int {
    div_toward_zero(saturating_page_sum(total, page_size), page_size as int)
}

/// The page count is the number of pages needed to hold every item: for a
/// positive page size and a non-negative total (whose sum with the page
/// size stays within `i64`), it is the least `n` with
/// `n * page_size >= total`, the ceiling of `total / page_size`.
pub proof fn lemma_total_pages_is_ceiling(total: i64, page_size: i64)
    requires
        page_size > 0,
        total >= 0,
        total + page_size - 1 <= i64::MAX,
    ensures
        total_pages_of(total, page_size) >= 0,
        total_pages_of(total, page_size) * page_size >= total,
        (total_pages_of(total, page_size) - 1) * page_size < total || (total == 0
            && total_pages_of(total, page_size) == 0),
{
    let x: int = total + page_size - 1;
    let d: int = page_size as int;
    assert(saturating_page_sum(total, page_size) == x);
    let n = total_pages_of(total, page_size);
    if x == 0 {
        assert(n == 0);
    } else {
        assert(n == x / d);
        assert(0 <= x / d && (x / d) * d <= x && x < (x / d) * d + d) by (nonlinear_arith)
            requires
                x > 0,
                d > 0,
        ;
        assert((n - 1) * d == n * d - d) by (nonlinear_arith);
    }
}

/// The page information of an offset page.
pub open spec fn offset_page_info_of(info: PageInfo, total: i64, page: i64, page_size: i64) -> bool {
    &&& info.mode == PageMode::Offset
    &&& info.page == Some(page as i32)
    &&& info.page_size == Some(page_size as i32)
    &&& (info.total_items matches Some(t) && t@ == int_decimal(total as int))
    &&& info.total_pages == Some(total_pages_of(total, page_size) as i32)
    &&& info.next_cursor is None
    &&& info.has_more == Some(page * page_size < total)
}

/// The page information reports the total as a decimal text that reads
/// back as the total, says there are more items exactly when the items
/// before the next page (`page * page_size`) are fewer than the total, and
/// never names a next cursor.
pub proof fn lemma_page_info_reports_the_total(info: PageInfo, total: i64, page: i64, page_size: i64)
    requires
        offset_page_info_of(info, total, page, page_size),
    ensures
        info.total_items is Some && signed_decimal_value(info.total_items.unwrap()@) == total,
        info.has_more == Some(page * page_size < total),
        info.next_cursor is None,
        info.mode == PageMode::Offset,
{
    lemma_int_decimal_reads_back(total as int);
}

proof fn lemma_div_toward_zero_in_range(x: int, d: int)
    requires
        d != 0,
        i64::MIN <= x <= i64::MAX,
        !(x == i64::MIN && d == -1),
    ensures
        i64::MIN <= div_toward_zero(x, d) <= i64::MAX,
{
    if x > 0 && d > 0 {
        assert(0 <= x / d <= x) by (nonlinear_arith)
            requires
                x > 0,
                d > 0,
        ;
    } else if x < 0 && d < 0 {
        if d == -1 {
            assert((-x) / (-d) == -x) by (nonlinear_arith)
                requires
                    d == -1,
            ;
            assert(x != i64::MIN);
        } else {
            let a = -x;
            let b = -d;
            assert(0 <= a / b && (a / b) * b <= a) by (nonlinear_arith)
                requires
                    a > 0,
                    b > 0,
            ;
            assert((a / b) * 2 <= (a / b) * b) by (nonlinear_arith)
                requires
                    a / b >= 0,
                    b >= 2,
            ;
            assert(a <= 0x8000_0000_0000_0000);
        }
    } else if x < 0 {
        assert(0 <= (-x) / d <= -x) by (nonlinear_arith)
            requires
                -x > 0,
                d > 0,
        ;
    } else if x > 0 {
        assert(0 <= x / (-d) <= x) by (nonlinear_arith)
            requires
                x > 0,
                -d > 0,
        ;
    }
}

pub fn offset_page_info(total: i64, page: i64, page_size: i64) -> (info: PageInfo)
    requires
        valid_paging(total, page, page_size),
    ensures
        offset_page_info_of(info, total, page, page_size),
{
    let step = page_size - 1;
    let sum = match total.checked_add(step) {
        Some(s) => s,
        None => if step > 0 {
            i64::MAX
        } else {
            i64::MIN
        },
    };
    assert(sum == saturating_page_sum(total, page_size));
    proof {
        lemma_div_toward_zero_in_range(sum as int, page_size as int);
    }
    let total_pages = sum.checked_div(page_size).unwrap();
    assert(total_pages == total_pages_of(total, page_size));
    let first = page.checked_mul(page_size).unwrap();
    PageInfo {
        mode: PageMode::Offset,
        page: Some(page as i32),
        page_size: Some(page_size as i32),
        total_items: Some(i64_decimal(total)),
        total_pages: Some(total_pages as i32),
        next_cursor: None,
        has_more: Some(first < total),
    }
}

pub fn map_invoice_page(page: &InvoiceListPage) -> (r: PageData<InvoiceResponse>)
    requires
        valid_paging(page.total, page.page, page.page_size),
    ensures
        r.items@.len() == page.items@.len(),
        forall|i: int| 0 <= i < r.items@.len() ==> invoice_response_of(#[trigger] r.items@[i], page.items@[i]),
        offset_page_info_of(r.page_info, page.total, page.page, page.page_size),
{
    let mut items: Vec<InvoiceResponse> = Vec::new();
    for i in 0..page.items.len()
        invariant
            items@.len() == i,
            forall|j: int| 0 <= j < i ==> invoice_response_of(#[trigger] items@[j], page.items@[j]),
    {
        items.push(map_invoice(&page.items[i]));
    }
    PageData { items, page_info: offset_page_info(page.total, page.page, page.page_size) }
}

pub fn map_invoice_item_page(page: &InvoiceItemListPage) -> (r: PageData<InvoiceItemResponse>)
    requires
        valid_paging(page.total, page.page, page.page_size),
    ensures
        item_responses_of(r.items@, page.items@),
        offset_page_info_of(r.page_info, page.total, page.page, page.page_size),
{
    PageData {
        items: map_invoice_items(&page.items),
        page_info: offset_page_info(page.total, page.page, page.page_size),
    }
}

pub open spec fn error_with(e: CommerceServiceError, code: Seq<char>, message: Seq<char>) -> bool {
    e.code@ == code && e.message@ == message
}

impl CommerceServiceError {
    /// An error of the given code.
    pub fn new(code: &str, message: &str) -> (e: CommerceServiceError)
        ensures
            error_with(e, code@, message@),
    {
        CommerceServiceError { code: owned(code), message: owned(message) }
    }

    /// Invalid input.
    pub fn validation(message: &str) -> (e: CommerceServiceError)
        ensures
            error_with(e, "validation"@, message@),
    {
        Self::new("validation", message)
    }

    /// The resource does not exist.
    pub fn not_found(message: &str) -> (e: CommerceServiceError)
        ensures
            error_with(e, "not-found"@, message@),
    {
        Self::new("not-found", message)
    }

    /// The resource is not in a state that allows the command.
    pub fn conflict(message: &str) -> (e: CommerceServiceError)
        ensures
            error_with(e, "conflict"@, message@),
    {
        Self::new("conflict", message)
    }

    /// The store failed.
    pub fn storage(message: &str) -> (e: CommerceServiceError)
        ensures
            error_with(e, "storage"@, message@),
    {
        Self::new("storage", message)
    }
}

impl InvoiceListPage {
    /// A page of invoices; refused when its paging numbers are not valid.
    pub fn new(items: Vec<InvoiceRecord>, total: i64, page: i64, page_size: i64) -> (r: Result<
        InvoiceListPage,
        CommerceServiceError,
    >)
        ensures
            match r {
                Ok(p) => valid_paging(total, page, page_size) && p.items == items && p.total == total
                    && p.page == page && p.page_size == page_size,
                Err(e) => !valid_paging(total, page, page_size) && error_with(
                    e,
                    "validation"@,
                    "page numbers are out of range"@,
                ),
            },
    {
        if check_paging(total, page, page_size) {
            Ok(InvoiceListPage { items, total, page, page_size })
        } else {
            Err(CommerceServiceError::validation("page numbers are out of range"))
        }
    }
}

impl InvoiceItemListPage {
    /// A page of invoice lines; refused when its paging numbers are not
    /// valid.
    pub fn new(items: Vec<InvoiceItemRecord>, total: i64, page: i64, page_size: i64) -> (r: Result<
        InvoiceItemListPage,
        CommerceServiceError,
    >)
        ensures
            match r {
                Ok(p) => valid_paging(total, page, page_size) && p.items == items && p.total == total
                    && p.page == page && p.page_size == page_size,
                Err(e) => !valid_paging(total, page, page_size) && error_with(
                    e,
                    "validation"@,
                    "page numbers are out of range"@,
                ),
            },
    {
        if check_paging(total, page, page_size) {
            Ok(InvoiceItemListPage { items, total, page, page_size })
        } else {
            Err(CommerceServiceError::validation("page numbers are out of range"))
        }
    }
}

fn check_paging(total: i64, page: i64, page_size: i64) -> (r: bool)
    ensures
        r == valid_paging(total, page, page_size),
{
    if page_size == 0 || page_size == i64::MIN {
        return false;
    }
    if page.checked_mul(page_size).is_none() {
        return false;
    }
    let step = page_size - 1;
    let sum = match total.checked_add(step) {
        Some(s) => s,
        None => if step > 0 {
            i64::MAX
        } else {
            i64::MIN
        },
    };
    !(sum == i64::MIN && page_size == -1)
}

pub open spec fn problem_is(p: ProblemDetail, kind: WebErrorKind, message: Seq<char>) -> bool {
    p.kind == kind && p.message@ == message
}

/// A missing or unusable caller identity.
pub fn unauthorized_problem(message: &str) -> (p: ProblemDetail)
    ensures
        problem_is(p, WebErrorKind::MissingCredentials, message@),
{
    ProblemDetail { kind: WebErrorKind::MissingCredentials, message: owned(message) }
}

/// Invalid input.
pub fn validation_problem(message: &str) -> (p: ProblemDetail)
    ensures
        problem_is(p, WebErrorKind::BadRequest, message@),
{
    ProblemDetail { kind: WebErrorKind::BadRequest, message: owned(message) }
}

/// A resource that does not exist.
pub fn not_found_problem(message: &str) -> (p: ProblemDetail)
    ensures
        problem_is(p, WebErrorKind::NotFound, message@),
{
    ProblemDetail { kind: WebErrorKind::NotFound, message: owned(message) }
}

/// The problem that answers a service error: validation errors are bad
/// requests, identity errors are missing credentials, `not-found` and
/// `conflict` keep their meaning, and anything else is an unavailable
/// dependency whose message is prefixed with `context`.
pub open spec fn system_problem_of(context: Seq<char>, code: Seq<char>, message: Seq<char>) -> (
    WebErrorKind,
    Seq<char>,
) {
    if code == "validation"@ {
        (WebErrorKind::BadRequest, message)
    } else if code == "unauthenticated"@ || code == "unauthorized"@ {
        (WebErrorKind::MissingCredentials, message)
    } else if code == "not-found"@ {
        (WebErrorKind::NotFound, message)
    } else if code == "conflict"@ {
        (WebErrorKind::Conflict, message)
    } else {
        (WebErrorKind::DependencyUnavailable, context + ": "@ + message)
    }
}

/// Each service error is answered with the status its code calls for:
/// `validation` 400 and `unauthenticated`/`unauthorized` 401, `not-found`
/// 404 and `conflict` 409, each with the error's own message; any other
/// code 503, with the message prefixed by the context and `": "`.
pub proof fn lemma_service_error_statuses(context: Seq<char>, code: Seq<char>, message: Seq<char>)
    ensures
        ({
            let (kind, text) = system_problem_of(context, code, message);
            &&& code == "validation"@ ==> status_of(kind) == 400 && text == message
            &&& (code == "unauthenticated"@ || code == "unauthorized"@) ==> status_of(kind) == 401
                && text == message
            &&& code == "not-found"@ ==> status_of(kind) == 404 && text == message
            &&& code == "conflict"@ ==> status_of(kind) == 409 && text == message
            &&& !(code == "validation"@ || code == "unauthenticated"@ || code == "unauthorized"@
                || code == "not-found"@ || code == "conflict"@) ==> status_of(kind) == 503 && text
                == context + ": "@ + message
        }),
{
    reveal_strlit("validation");
    reveal_strlit("unauthenticated");
    reveal_strlit("unauthorized");
    reveal_strlit("not-found");
    reveal_strlit("conflict");
    let v = "validation"@;
    let a = "unauthenticated"@;
    let z = "unauthorized"@;
    let n = "not-found"@;
    let c = "conflict"@;
    assert(v[0] == 'v' && a[0] == 'u' && z[0] == 'u' && n[0] == 'n' && c[0] == 'c');
    assert(a[6] != z[6]);
    assert(v != a && v != z && v != n && v != c && a != z && a != n && a != c && z != n && z != c
        && n != c);
}

fn text_is(a: &String, b: &str) -> (r: bool)
    ensures
        r == (a@ == b@),
{
    crate::json::key_eq(a, b)
}

pub fn invoice_system_problem(context: &str, error: &CommerceServiceError) -> (p: ProblemDetail)
    ensures
        (p.kind, p.message@) == system_problem_of(context@, error.code@, error.message@),
{
    let message = clone_text(&error.message);
    if text_is(&error.code, "validation") {
        ProblemDetail { kind: WebErrorKind::BadRequest, message }
    } else if text_is(&error.code, "unauthenticated") || text_is(&error.code, "unauthorized") {
        ProblemDetail { kind: WebErrorKind::MissingCredentials, message }
    } else if text_is(&error.code, "not-found") {
        ProblemDetail { kind: WebErrorKind::NotFound, message }
    } else if text_is(&error.code, "conflict") {
        ProblemDetail { kind: WebErrorKind::Conflict, message }
    } else {
        let mut text = owned(context);
        push_str(&mut text, ": ");
        push_str(&mut text, error.message.as_str());
        ProblemDetail { kind: WebErrorKind::DependencyUnavailable, message: text }
    }
}

/// The caller of an application route.
#[derive(Debug, Clone, PartialEq, Eq)]
pub struct AppRuntimeSubject {
    pub tenant_id: String,
    pub organization_id: Option<String>,
    pub user_id: String,
}

/// The request number used when the request carries none:
/// `invoice-<user>-<reference>-<idempotency key>`.
pub open spec fn fallback_request_no_text(user_id: Seq<char>, reference: Seq<char>, key: Seq<char>) -> Seq<char> {
    "invoice-"@ + user_id + "-"@ + reference + "-"@ + key
}

/// The fallback request number is `invoice-`, the user id, `-`, the
/// reference, `-` and the idempotency key, each in its place.
pub proof fn lemma_fallback_request_no_layout(user_id: Seq<char>, reference: Seq<char>, key: Seq<char>)
    ensures
        ({
            let t = fallback_request_no_text(user_id, reference, key);
            let u: int = 8 + user_id.len() as int;
            let r: int = u + 1 + reference.len();
            &&& t.len() == r + 1 + key.len()
            &&& t.subrange(0, 8) == "invoice-"@
            &&& t.subrange(8, u) == user_id
            &&& t[u] == '-'
            &&& t.subrange(u + 1, r) == reference
            &&& t[r] == '-'
            &&& t.subrange(r + 1, t.len() as int) == key
        }),
{
    reveal_strlit("invoice-");
    reveal_strlit("-");
    let t = fallback_request_no_text(user_id, reference, key);
    let u: int = 8 + user_id.len() as int;
    let r: int = u + 1 + reference.len();
    assert(t.subrange(0, 8) =~= "invoice-"@);
    assert(t.subrange(8, u) =~= user_id);
    assert(t.subrange(u + 1, r) =~= reference);
    assert(t.subrange(r + 1, t.len() as int) =~= key);
}

pub fn fallback_request_no(subject: &AppRuntimeSubject, invoice_id: &str, idempotency_key: &str) -> (r: String)
    ensures
        r@ == fallback_request_no_text(subject.user_id@, invoice_id@, idempotency_key@),
{
    let mut out = owned("invoice-");
    push_str(&mut out, subject.user_id.as_str());
    push_str(&mut out, "-");
    push_str(&mut out, invoice_id);
    push_str(&mut out, "-");
    push_str(&mut out, idempotency_key);
    out
}

/// The total amount of a new invoice, given the JSON encoder's text of the
/// requested value: that text with surrounding quotes removed, or `0.00`
/// when no value was given or nothing is left.
pub open spec fn total_amount_text(encoded: Option<String>) -> Seq<char> {
    match encoded {
        Some(v) => {
            let t = trim_matches_char(v@, '"');
            if t.len() == 0 {
                "0.00"@
            } else {
                t
            }
        },
        None => "0.00"@,
    }
}

/// The total amount of a new invoice is never empty and neither begins nor
/// ends with a quote: it is `0.00` when no amount was given or its text is
/// only quotes, and otherwise a contiguous part of the encoder's text.
pub proof fn lemma_total_amount_text_shape(encoded: Option<String>)
    ensures
        total_amount_text(encoded).len() > 0,
        total_amount_text(encoded)[0] != '"',
        total_amount_text(encoded).last() != '"',
        encoded is None ==> total_amount_text(encoded) == "0.00"@,
        encoded matches Some(e) ==> total_amount_text(encoded) == "0.00"@ || exists|i: int, j: int|
            0 <= i <= j <= e@.len() && #[trigger] e@.subrange(i, j) == total_amount_text(encoded),
{
    reveal_strlit("0.00");
    if let Some(e) = encoded {
        lemma_trim_matches_char_shape(e@, '"');
    }
}

fn strip_quotes(s: &String) -> (r: String)
    ensures
        r@ == trim_matches_char(s@, '"'),
{
    let cs = crate::text::chars_of(s.as_str());
    let n = cs.len();
    let mut i: usize = 0;
    assert(s@.subrange(0, n as int) =~= s@);
    while i < n && cs[i] == '"'
        invariant
            i <= n == cs@.len(),
            cs@ == s@,
            crate::text::strip_start_char(s@, '"') == crate::text::strip_start_char(
                s@.subrange(i as int, n as int),
                '"',
            ),
        decreases n - i,
    {
        assert(s@.subrange(i as int, n as int).drop_first() =~= s@.subrange(i + 1, n as int));
        i = i + 1;
    }
    let ghost rest = s@.subrange(i as int, n as int);
    assert(crate::text::strip_start_char(rest, '"') == rest);
    let mut j: usize = n;
    while j > i && cs[j - 1] == '"'
        invariant
            i <= j <= n == cs@.len(),
            cs@ == s@,
            crate::text::strip_end_char(rest, '"') == crate::text::strip_end_char(
                s@.subrange(i as int, j as int),
                '"',
            ),
        decreases j,
    {
        assert(s@.subrange(i as int, j as int).drop_last() =~= s@.subrange(i as int, j - 1));
        j = j - 1;
    }
    let ghost inner = s@.subrange(i as int, j as int);
    assert(crate::text::strip_end_char(inner, '"') == inner);
    let mut out = String::new();
    crate::text::push_chars(&mut out, &cs, i, j);
    assert(out@ =~= inner);
    out
}

/// The total amount of a new invoice (see `total_amount_text`). The text of
/// the requested value is the JSON encoder's, made where the request body
/// is decoded.
pub fn normalized_total_amount(encoded: &Option<String>) -> (r: String)
    ensures
        r@ == total_amount_text(*encoded),
{
    match encoded {
        Some(v) => {
            let t = strip_quotes(v);
            if t.as_str().is_empty() {
                owned("0.00")
            } else {
                t
            }
        },
        None => owned("0.00"),
    }
}

/// Invoice counts as the statistics route returns them.
#[derive(Debug, Clone, Copy, PartialEq, Eq)]
pub struct InvoiceStatisticsResponse {
    pub total_invoices: i64,
    pub pending_invoices: i64,
    pub issued_invoices: i64,
    pub cancelled_invoices: i64,
}

pub fn map_invoice_statistics(statistics: &InvoiceStatistics) -> (r: InvoiceStatisticsResponse)
    ensures
        r.total_invoices == statistics.total,
        r.pending_invoices == statistics.pending,
        r.issued_invoices == statistics.issued,
        r.cancelled_invoices == statistics.cancelled,
{
    InvoiceStatisticsResponse {
        total_invoices: statistics.total,
        pending_invoices: statistics.pending,
        issued_invoices: statistics.issued,
        cancelled_invoices: statistics.cancelled,
    }
}

} // verus!
