//! The invoice store's own logic: command timestamps and identifiers, the
//! normalisation of database cells, the grouping of invoice lines by
//! invoice, and the decisions of the write commands.

use vstd::prelude::*;

use crate::invoice_api::{CommerceServiceError, InvoiceItemRecord, InvoiceRecord, error_with};
use crate::text::{
    owned, push_str, trim, trimmed, int_decimal, i64_decimal, ascii_lower, lower_ascii_char,
    signed_decimal_value, lemma_int_decimal_reads_back, lemma_trimmed_shape, is_unicode_whitespace,
};

verus! {

#[verifier::external_type_specification]
#[verifier::external_body]
pub struct ExSystemTime(std::time::SystemTime);

/// `SystemTime::now`. Nothing is stated of the instant it returns.
#[verifier::external_body]
fn system_time_now() -> std::time::SystemTime {
    std::time::SystemTime::now()
}

/// `SystemTime::duration_since(UNIX_EPOCH)`, `None` when the instant lies
/// before the epoch. Nothing is stated of the duration: it depends on the
/// clock.
#[verifier::external_body]
fn duration_since_unix_epoch(t: &std::time::SystemTime) -> Option<std::time::Duration> {
    t.duration_since(std::time::UNIX_EPOCH).ok()
}

/// `Duration::as_secs`. Nothing is stated of the count.
#[verifier::external_body]
fn duration_whole_seconds(d: &std::time::Duration) -> u64 {
    d.as_secs()
}

/// The timestamp text of a command, given the seconds since the Unix epoch
/// (`None` when the clock is before the epoch): the seconds, taken as an
/// `i64`, in decimal.
pub open spec fn command_timestamp_text(seconds: Option<u64>) -> Seq<char> {
    match seconds {
        Some(s) => int_decimal((s as i64) as int),
        None => int_decimal(0),
    }
}

/// The seconds that a clock reading stands for: 0 before the epoch.
pub open spec fn seconds_or_zero(seconds: Option<u64>) -> int {
    match seconds {
        Some(s) => s as int,
        None => 0,
    }
}

/// A command timestamp reads back as its seconds (for readings up to
/// `i64::MAX` seconds), so a later clock reading never gives a smaller
/// timestamp.
pub proof fn lemma_timestamp_follows_the_clock(earlier: Option<u64>, later: Option<u64>)
    requires
        seconds_or_zero(earlier) <= seconds_or_zero(later) <= i64::MAX,
    ensures
        signed_decimal_value(command_timestamp_text(earlier)) == seconds_or_zero(earlier),
        signed_decimal_value(command_timestamp_text(later)) == seconds_or_zero(later),
        signed_decimal_value(command_timestamp_text(earlier)) <= signed_decimal_value(
            command_timestamp_text(later),
        ),
{
    lemma_int_decimal_reads_back(seconds_or_zero(earlier));
    lemma_int_decimal_reads_back(seconds_or_zero(later));
}

pub fn command_timestamp_from_seconds(seconds: Option<u64>) -> (r: String)
    ensures
        r@ == command_timestamp_text(seconds),
{
    match seconds {
        Some(s) => i64_decimal(s as i64),
        None => i64_decimal(0),
    }
}

/// The current time as a command timestamp: whole seconds since the Unix
/// epoch in decimal, `0` when the clock is before the epoch.
pub fn invoice_command_timestamp() -> (r: String)
    ensures
        exists|seconds: Option<u64>| r@ == command_timestamp_text(seconds),
{
    let now = system_time_now();
    let seconds = match duration_since_unix_epoch(&now) {
        Some(d) => Some(duration_whole_seconds(&d)),
        None => None,
    };
    command_timestamp_from_seconds(seconds)
}

/// The identifiers of a new invoice made at `now`.
#[derive(Debug, Clone, PartialEq, Eq)]
pub struct NewInvoiceIdentifiers {
    pub invoice_id: String,
    pub title_id: String,
    pub item_id: String,
    pub order_id: String,
    pub payment_id: String,
}

/// `invoice-<now>`, `title-<now>`, `invoice-item-<now>`, and the manual
/// order `manual-<invoice id>` and payment `manual-payment-<invoice id>`.
pub open spec fn new_invoice_identifiers_of(ids: NewInvoiceIdentifiers, now: Seq<char>) -> bool {
    &&& ids.invoice_id@ == "invoice-"@ + now
    &&& ids.title_id@ == "title-"@ + now
    &&& ids.item_id@ == "invoice-item-"@ + now
    &&& ids.order_id@ == "manual-"@ + ("invoice-"@ + now)
    &&& ids.payment_id@ == "manual-payment-"@ + ("invoice-"@ + now)
}

/// The five identifiers of a new invoice are pairwise different and each
/// ends with the timestamp it was made at.
pub proof fn lemma_new_invoice_identifiers_distinct(ids: NewInvoiceIdentifiers, now: Seq<char>)
    requires
        new_invoice_identifiers_of(ids, now),
    ensures
        ids.invoice_id@ != ids.title_id@,
        ids.invoice_id@ != ids.item_id@,
        ids.invoice_id@ != ids.order_id@,
        ids.invoice_id@ != ids.payment_id@,
        ids.title_id@ != ids.item_id@,
        ids.title_id@ != ids.order_id@,
        ids.title_id@ != ids.payment_id@,
        ids.item_id@ != ids.order_id@,
        ids.item_id@ != ids.payment_id@,
        ids.order_id@ != ids.payment_id@,
        ids.invoice_id@.skip(ids.invoice_id@.len() - now.len()) == now,
        ids.title_id@.skip(ids.title_id@.len() - now.len()) == now,
        ids.item_id@.skip(ids.item_id@.len() - now.len()) == now,
        ids.order_id@.skip(ids.order_id@.len() - now.len()) == now,
        ids.payment_id@.skip(ids.payment_id@.len() - now.len()) == now,
{
    reveal_strlit("invoice-");
    reveal_strlit("title-");
    reveal_strlit("invoice-item-");
    reveal_strlit("manual-");
    reveal_strlit("manual-payment-");
    let i = ids.invoice_id@;
    let t = ids.title_id@;
    let m = ids.item_id@;
    let o = ids.order_id@;
    let p = ids.payment_id@;
    assert(i.len() == 8 + now.len());
    assert(t.len() == 6 + now.len());
    assert(m.len() == 13 + now.len());
    assert(o.len() == 15 + now.len());
    assert(p.len() == 23 + now.len());
    assert(i[0] == 'i' && t[0] == 't');
    assert(i.skip(i.len() - now.len()) =~= now);
    assert(t.skip(t.len() - now.len()) =~= now);
    assert(m.skip(m.len() - now.len()) =~= now);
    assert(o.skip(o.len() - now.len()) =~= now);
    assert(p.skip(p.len() - now.len()) =~= now);
}

/// The lines of an invoice are exactly the lines that name it: each line
/// kept names the invoice, and every line that names it is kept.
pub proof fn lemma_items_with_invoice_selects(items: Seq<InvoiceItemRecord>, id: Seq<char>)
    ensures
        forall|k: int|
            0 <= k < items_with_invoice(items, id).len() ==> (#[trigger] items_with_invoice(items, id)[k]).invoice_id@ == id,
        forall|k: int|
            0 <= k < items.len() && (#[trigger] items[k]).invoice_id@ == id ==> items_with_invoice(items, id).contains(items[k]),
        items_with_invoice(items, id).len() <= items.len(),
    decreases items.len(),
{
    if items.len() > 0 {
        let d = items.drop_last();
        lemma_items_with_invoice_selects(d, id);
        let prev = items_with_invoice(d, id);
        assert forall|k: int| 0 <= k < items.len() && (#[trigger] items[k]).invoice_id@ == id implies items_with_invoice(items, id).contains(items[k]) by {
            if k < items.len() - 1 {
                assert(items[k] == d[k]);
                let w = choose|w: int| 0 <= w < prev.len() && prev[w] == d[k];
                if items.last().invoice_id@ == id {
                    assert(prev.push(items.last())[w] == prev[w]);
                }
            } else {
                assert(items_with_invoice(items, id).last() == items.last());
            }
        }
        if items.last().invoice_id@ == id {
            assert forall|k: int| 0 <= k < prev.push(items.last()).len() implies (#[trigger] prev.push(items.last())[k]).invoice_id@ == id by {
                if k < prev.len() {
                    assert(prev.push(items.last())[k] == prev[k]);
                }
            }
        }
    }
}

fn prefixed(prefix: &str, rest: &str) -> (r: String)
    ensures
        r@ == prefix@ + rest@,
{
    let mut out = owned(prefix);
    push_str(&mut out, rest);
    out
}

pub fn new_invoice_identifiers(now: &str) -> (ids: NewInvoiceIdentifiers)
    ensures
        new_invoice_identifiers_of(ids, now@),
{
    let invoice_id = prefixed("invoice-", now);
    let title_id = prefixed("title-", now);
    let item_id = prefixed("invoice-item-", now);
    let order_id = prefixed("manual-", invoice_id.as_str());
    let payment_id = prefixed("manual-payment-", invoice_id.as_str());
    NewInvoiceIdentifiers { invoice_id, title_id, item_id, order_id, payment_id }
}

/// A text cell read as a string: an unreadable or null cell reads as empty.
pub open spec fn string_cell_text(cell: Option<String>) -> Seq<char> {
    match cell {
        Some(s) => s@,
        None => seq![],
    }
}

pub fn string_cell(cell: Option<String>) -> (r: String)
    ensures
        r@ == string_cell_text(cell),
{
    match cell {
        Some(s) => s,
        None => String::new(),
    }
}

/// An optional text cell: trimmed, and absent when unreadable, null or
/// blank.
pub open spec fn optional_cell_text(cell: Option<String>) -> Option<Seq<char>> {
    match cell {
        Some(s) => if trimmed(s@).len() == 0 {
            None
        } else {
            Some(trimmed(s@))
        },
        None => None,
    }
}

/// A text cell reads as its text, and an absent one as empty. An optional
/// cell reads as absent when it is absent or holds only whitespace, and
/// otherwise as a non-empty part of its text without whitespace at either
/// end.
pub proof fn lemma_cells_read_as_text(cell: Option<String>)
    ensures
        cell matches Some(s) ==> string_cell_text(cell) == s@,
        cell is None ==> string_cell_text(cell).len() == 0 && optional_cell_text(cell) is None,
        optional_cell_text(cell) matches Some(t) ==> t.len() > 0 && !is_unicode_whitespace(t[0])
            && !is_unicode_whitespace(t.last()) && exists|i: int, j: int|
            0 <= i <= j <= cell->0@.len() && #[trigger] cell->0@.subrange(i, j) == t,
        cell matches Some(s) && (forall|k: int| 0 <= k < s@.len() ==> is_unicode_whitespace(
            #[trigger] s@[k],
        )) ==> optional_cell_text(cell) is None,
{
    if let Some(s) = cell {
        lemma_trimmed_shape(s@);
        if trimmed(s@).len() > 0 {
            let (i, j) = choose|i: int, j: int|
                0 <= i <= j <= s@.len() && #[trigger] s@.subrange(i, j) == trimmed(s@) && (forall|k: int|
                    (0 <= k < i || j <= k < s@.len()) ==> is_unicode_whitespace(#[trigger] s@[k]));
            assert(trimmed(s@)[0] == s@[i]);
        }
    }
}

pub fn optional_string_cell(cell: Option<String>) -> (r: Option<String>)
    ensures
        match optional_cell_text(cell) {
            Some(t) => r matches Some(v) && v@ == t,
            None => r is None,
        },
{
    match cell {
        Some(s) => {
            let t = trim(s.as_str());
            if t.as_str().is_empty() {
                None
            } else {
                Some(t)
            }
        },
        None => None,
    }
}

/// A store failure: a `storage` error whose message is the context, `: `
/// and the failure's text.
pub fn store_error(context: &str, error_text: &str) -> (e: CommerceServiceError)
    ensures
        error_with(e, "storage"@, context@ + ": "@ + error_text@),
{
    let mut message = owned(context);
    push_str(&mut message, ": ");
    push_str(&mut message, error_text);
    CommerceServiceError::storage(message.as_str())
}

/// The cells of an invoice line row, each `None` when null or unreadable.
#[derive(Debug, Clone, PartialEq, Eq)]
pub struct InvoiceItemCells {
    pub id: Option<String>,
    pub tenant_id: Option<String>,
    pub invoice_id: Option<String>,
    pub order_item_id: Option<String>,
    pub title: Option<String>,
    pub amount: Option<String>,
    pub tax_amount: Option<String>,
    pub created_at: Option<String>,
}

pub open spec fn opt_view_is(r: Option<String>, t: Option<Seq<char>>) -> bool {
    match t {
        Some(v) => r matches Some(x) && x@ == v,
        None => r is None,
    }
}

/// An invoice line read from its row: required cells as strings, the order
/// line optional.
pub open spec fn item_from_cells(item: InvoiceItemRecord, cells: InvoiceItemCells) -> bool {
    &&& item.id@ == string_cell_text(cells.id)
    &&& item.tenant_id@ == string_cell_text(cells.tenant_id)
    &&& item.invoice_id@ == string_cell_text(cells.invoice_id)
    &&& opt_view_is(item.order_item_id, optional_cell_text(cells.order_item_id))
    &&& item.title@ == string_cell_text(cells.title)
    &&& item.amount@ == string_cell_text(cells.amount)
    &&& item.tax_amount@ == string_cell_text(cells.tax_amount)
    &&& item.created_at@ == string_cell_text(cells.created_at)
}

pub fn invoice_item_from_cells(cells: InvoiceItemCells) -> (item: InvoiceItemRecord)
    ensures
        item_from_cells(item, cells),
{
    InvoiceItemRecord {
        id: string_cell(cells.id),
        tenant_id: string_cell(cells.tenant_id),
        invoice_id: string_cell(cells.invoice_id),
        order_item_id: optional_string_cell(cells.order_item_id),
        title: string_cell(cells.title),
        amount: string_cell(cells.amount),
        tax_amount: string_cell(cells.tax_amount),
        created_at: string_cell(cells.created_at),
    }
}

/// The cells of an invoice row, each `None` when null or unreadable.
#[derive(Debug, Clone, PartialEq, Eq)]
pub struct InvoiceCells {
    pub id: Option<String>,
    pub tenant_id: Option<String>,
    pub organization_id: Option<String>,
    pub owner_user_id: Option<String>,
    pub order_id: Option<String>,
    pub payment_id: Option<String>,
    pub title_id: Option<String>,
    pub status: Option<String>,
    pub invoice_no: Option<String>,
    pub invoice_code: Option<String>,
    pub document_url: Option<String>,
    pub created_at: Option<String>,
    pub issued_at: Option<String>,
    pub updated_at: Option<String>,
}

/// An invoice row with its cells normalised.
#[derive(Debug, Clone, PartialEq, Eq)]
pub struct InvoiceRow {
    pub id: String,
    pub tenant_id: String,
    pub organization_id: Option<String>,
    pub owner_user_id: String,
    pub order_id: String,
    pub payment_id: String,
    pub title_id: String,
    pub status: String,
    pub invoice_no: Option<String>,
    pub invoice_code: Option<String>,
    pub document_url: Option<String>,
    pub created_at: String,
    pub issued_at: Option<String>,
    pub updated_at: String,
}

pub open spec fn row_from_cells(row: InvoiceRow, cells: InvoiceCells) -> bool {
    &&& row.id@ == string_cell_text(cells.id)
    &&& row.tenant_id@ == string_cell_text(cells.tenant_id)
    &&& opt_view_is(row.organization_id, optional_cell_text(cells.organization_id))
    &&& row.owner_user_id@ == string_cell_text(cells.owner_user_id)
    &&& row.order_id@ == string_cell_text(cells.order_id)
    &&& row.payment_id@ == string_cell_text(cells.payment_id)
    &&& row.title_id@ == string_cell_text(cells.title_id)
    &&& row.status@ == string_cell_text(cells.status)
    &&& opt_view_is(row.invoice_no, optional_cell_text(cells.invoice_no))
    &&& opt_view_is(row.invoice_code, optional_cell_text(cells.invoice_code))
    &&& opt_view_is(row.document_url, optional_cell_text(cells.document_url))
    &&& row.created_at@ == string_cell_text(cells.created_at)
    &&& opt_view_is(row.issued_at, optional_cell_text(cells.issued_at))
    &&& row.updated_at@ == string_cell_text(cells.updated_at)
}

pub fn map_invoice_row(cells: InvoiceCells) -> (row: InvoiceRow)
    ensures
        row_from_cells(row, cells),
{
    InvoiceRow {
        id: string_cell(cells.id),
        tenant_id: string_cell(cells.tenant_id),
        organization_id: optional_string_cell(cells.organization_id),
        owner_user_id: string_cell(cells.owner_user_id),
        order_id: string_cell(cells.order_id),
        payment_id: string_cell(cells.payment_id),
        title_id: string_cell(cells.title_id),
        status: string_cell(cells.status),
        invoice_no: optional_string_cell(cells.invoice_no),
        invoice_code: optional_string_cell(cells.invoice_code),
        document_url: optional_string_cell(cells.document_url),
        created_at: string_cell(cells.created_at),
        issued_at: optional_string_cell(cells.issued_at),
        updated_at: string_cell(cells.updated_at),
    }
}

/// A status in which an invoice may still be edited: `draft` or `failed`,
/// in any ASCII case.
pub open spec fn is_editable_status(status: Seq<char>) -> bool {
    ascii_lower(status) == "draft"@ || ascii_lower(status) == "failed"@
}

/// Only draft and failed invoices, in any ASCII case, are editable: a
/// submitted, issued, completed or cancelled invoice is not.
pub proof fn lemma_only_draft_or_failed_is_editable(status: Seq<char>)
    ensures
        is_editable_status(status) <==> (ascii_lower(status) == "draft"@ || ascii_lower(status)
            == "failed"@),
        !is_editable_status("submitted"@),
        !is_editable_status("issued"@),
        !is_editable_status("completed"@),
        !is_editable_status("cancelled"@),
        is_editable_status("draft"@),
        is_editable_status("FAILED"@),
{
    reveal_strlit("draft");
    reveal_strlit("failed");
    reveal_strlit("FAILED");
    reveal_strlit("submitted");
    reveal_strlit("issued");
    reveal_strlit("completed");
    reveal_strlit("cancelled");
    assert(ascii_lower("submitted"@).len() == 9);
    assert(ascii_lower("issued"@)[0] == 'i');
    assert(ascii_lower("completed"@).len() == 9);
    assert(ascii_lower("cancelled"@).len() == 9);
    assert(ascii_lower("draft"@) =~= "draft"@);
    assert(ascii_lower("FAILED"@) =~= "failed"@);
}

pub fn editable_status(status: &str) -> (r: bool)
    ensures
        r == is_editable_status(status@),
{
    let mut lower = String::new();
    for c in it: status.chars()
        invariant
            it.seq() == status@,
            lower@ == ascii_lower(status@.take(it.index() as int)),
    {
        lower.push(lower_ascii_char(c));
        assert(lower@ =~= ascii_lower(status@.take(it.index() + 1)));
    }
    assert(status@.take(status@.len() as int) =~= status@);
    crate::json::key_eq(&lower, "draft") || crate::json::key_eq(&lower, "failed")
}

/// The lines of `items` that belong to invoice `id`, in order.
pub open spec fn items_with_invoice(items: Seq<InvoiceItemRecord>, id: Seq<char>) -> Seq<
    InvoiceItemRecord,
>
    decreases items.len(),
{
    if items.len() == 0 {
        seq![]
    } else {
        let prev = items_with_invoice(items.drop_last(), id);
        if items.last().invoice_id@ == id {
            prev.push(items.last())
        } else {
            prev
        }
    }
}

/// The lines of one invoice.
#[derive(Debug, Clone, PartialEq, Eq)]
pub struct InvoiceItemGroup {
    pub invoice_id: String,
    pub items: Vec<InvoiceItemRecord>,
}

/// Invoice lines grouped by invoice.
#[derive(Debug, Clone, PartialEq, Eq)]
pub struct InvoiceItemGroups {
    pub groups: Vec<InvoiceItemGroup>,
}

/// The invoice ids of `items`, each once, in the order each first appears.
pub open spec fn invoice_ids_in_order(items: Seq<InvoiceItemRecord>) -> Seq<Seq<char>>
    decreases items.len(),
{
    if items.len() == 0 {
        seq![]
    } else {
        let prev = invoice_ids_in_order(items.drop_last());
        if prev.contains(items.last().invoice_id@) {
            prev
        } else {
            prev.push(items.last().invoice_id@)
        }
    }
}

/// The invoice id of each group, in order.
pub open spec fn group_ids(groups: Seq<InvoiceItemGroup>) -> Seq<Seq<char>> {
    groups.map_values(|g: InvoiceItemGroup| g.invoice_id@)
}

/// `groups` groups `items`: one group per invoice that has lines, in the
/// order each invoice first appears, none for any other invoice, each
/// holding exactly that invoice's lines in their order (so none is empty).
pub open spec fn groups_of(groups: Seq<InvoiceItemGroup>, items: Seq<InvoiceItemRecord>) -> bool {
    &&& group_ids(groups) == invoice_ids_in_order(items)
    &&& forall|i: int| 0 <= i < groups.len() ==> #[trigger] groups[i].items@.len() > 0
    &&& forall|i: int, j: int|
        0 <= i < j < groups.len() ==> #[trigger] groups[i].invoice_id@ != #[trigger] groups[j].invoice_id@
    &&& forall|i: int|
        0 <= i < groups.len() ==> #[trigger] groups[i].items@ == items_with_invoice(
            items,
            groups[i].invoice_id@,
        )
    &&& forall|k: int|
        0 <= k < items.len() ==> exists|i: int|
            0 <= i < groups.len() && #[trigger] groups[i].invoice_id@ == #[trigger] items[k].invoice_id@
}

/// The lines of the first group of invoice `id`; none when there is no such
/// group.
pub open spec fn lookup_group(groups: Seq<InvoiceItemGroup>, id: Seq<char>) -> Seq<InvoiceItemRecord>
    decreases groups.len(),
{
    if groups.len() == 0 {
        seq![]
    } else if groups[0].invoice_id@ == id {
        groups[0].items@
    } else {
        lookup_group(groups.drop_first(), id)
    }
}

fn clone_opt_string(o: &Option<String>) -> (r: Option<String>)
    ensures
        r == *o,
{
    match o {
        Some(s) => Some(s.clone()),
        None => None,
    }
}

pub fn clone_item(item: &InvoiceItemRecord) -> (r: InvoiceItemRecord)
    ensures
        r == *item,
{
    InvoiceItemRecord {
        id: item.id.clone(),
        tenant_id: item.tenant_id.clone(),
        invoice_id: item.invoice_id.clone(),
        order_item_id: clone_opt_string(&item.order_item_id),
        title: item.title.clone(),
        amount: item.amount.clone(),
        tax_amount: item.tax_amount.clone(),
        created_at: item.created_at.clone(),
    }
}

proof fn lemma_items_with_step(items: Seq<InvoiceItemRecord>, i: int, id: Seq<char>)
    requires
        0 <= i < items.len(),
    ensures
        items_with_invoice(items.take(i + 1), id) == if items[i].invoice_id@ == id {
            items_with_invoice(items.take(i), id).push(items[i])
        } else {
            items_with_invoice(items.take(i), id)
        },
{
    assert(items.take(i + 1).drop_last() =~= items.take(i));
    assert(items.take(i + 1).last() == items[i]);
}

proof fn lemma_items_with_none(items: Seq<InvoiceItemRecord>, id: Seq<char>)
    requires
        forall|k: int| 0 <= k < items.len() ==> #[trigger] items[k].invoice_id@ != id,
    ensures
        items_with_invoice(items, id) == Seq::<InvoiceItemRecord>::empty(),
    decreases items.len(),
{
    if items.len() > 0 {
        let p = items.drop_last();
        assert forall|k: int| 0 <= k < p.len() implies #[trigger] p[k].invoice_id@ != id by {
            assert(p[k] == items[k]);
        }
        lemma_items_with_none(p, id);
        assert(items[items.len() - 1].invoice_id@ != id);
    }
}

fn find_group(groups: &Vec<InvoiceItemGroup>, id: &str) -> (r: Option<usize>)
    ensures
        match r {
            Some(j) => j < groups@.len() && groups@[j as int].invoice_id@ == id@,
            None => forall|i: int| 0 <= i < groups@.len() ==> #[trigger] groups@[i].invoice_id@ != id@,
        },
{
    let n = groups.len();
    for j in 0..n
        invariant
            n == groups@.len(),
            forall|i: int| 0 <= i < j ==> #[trigger] groups@[i].invoice_id@ != id@,
    {
        if crate::json::key_eq(&groups[j].invoice_id, id) {
            return Some(j);
        }
    }
    None
}

/// The lines grouped by invoice, in the order each invoice first appears:
/// a group for each invoice that has lines and for no other, none empty, no
/// group at all when there are no lines.
pub fn group_items_by_invoice(items: &Vec<InvoiceItemRecord>) -> (r: InvoiceItemGroups)
    ensures
        groups_of(r.groups@, items@),
        group_ids(r.groups@) == invoice_ids_in_order(items@),
        forall|i: int| 0 <= i < r.groups@.len() ==> #[trigger] r.groups@[i].items@.len() > 0,
        items@.len() == 0 ==> r.groups@.len() == 0,
{
    let mut groups: Vec<InvoiceItemGroup> = Vec::new();
    let n = items.len();
    assert(group_ids(groups@) =~= invoice_ids_in_order(items@.take(0)));
    for k in 0..n
        invariant
            n == items@.len(),
            groups_of(groups@, items@.take(k as int)),
    {
        let item = clone_item(&items[k]);
        let ghost old_groups = groups@;
        let ghost prefix = items@.take(k as int);
        let ghost next = items@.take(k + 1);
        proof {
            assert forall|id: Seq<char>| items_with_invoice(next, id) == if item.invoice_id@ == id {
                items_with_invoice(prefix, id).push(item)
            } else {
                items_with_invoice(prefix, id)
            } by {
                lemma_items_with_step(items@, k as int, id);
            }
        }
        match find_group(&groups, item.invoice_id.as_str()) {
            Some(j) => {
                let mut g = groups.remove(j);
                g.items.push(item);
                groups.insert(j, g);
                proof {
                    assert(groups@ =~= old_groups.update(j as int, g));
                    assert(group_ids(old_groups)[j as int] == item.invoice_id@);
                    assert(invoice_ids_in_order(prefix).contains(item.invoice_id@));
                    assert(next.drop_last() =~= prefix);
                    assert(group_ids(groups@) =~= group_ids(old_groups));
                    assert forall|i: int| 0 <= i < groups@.len() implies #[trigger] groups@[i].items@.len() > 0 by {
                        if i != j {
                            assert(groups@[i] == old_groups[i]);
                        }
                    }
                    assert forall|k2: int| 0 <= k2 < next.len() implies exists|i: int|
                        0 <= i < groups@.len() && #[trigger] groups@[i].invoice_id@
                            == #[trigger] next[k2].invoice_id@ by {
                        if k2 < k {
                            assert(next[k2] == prefix[k2]);
                            let i = choose|i: int|
                                0 <= i < old_groups.len() && #[trigger] old_groups[i].invoice_id@
                                    == #[trigger] prefix[k2].invoice_id@;
                            assert(groups@[i].invoice_id@ == old_groups[i].invoice_id@);
                        } else {
                            assert(next[k2] == item);
                            assert(groups@[j as int].invoice_id@ == item.invoice_id@);
                        }
                    }
                    assert forall|i: int| 0 <= i < groups@.len() implies #[trigger] groups@[i].items@
                        == items_with_invoice(next, groups@[i].invoice_id@) by {
                        if i != j {
                            assert(old_groups[i].invoice_id@ != old_groups[j as int].invoice_id@);
                        }
                    }
                }
            },
            None => {
                let key = item.invoice_id.clone();
                let mut members: Vec<InvoiceItemRecord> = Vec::new();
                members.push(item);
                groups.push(InvoiceItemGroup { invoice_id: key, items: members });
                proof {
                    assert forall|k2: int| 0 <= k2 < prefix.len() implies #[trigger] prefix[k2].invoice_id@
                        != item.invoice_id@ by {
                        let i = choose|i: int|
                            0 <= i < old_groups.len() && #[trigger] old_groups[i].invoice_id@
                                == #[trigger] prefix[k2].invoice_id@;
                        assert(old_groups[i].invoice_id@ != item.invoice_id@);
                    }
                    lemma_items_with_none(prefix, item.invoice_id@);
                    assert(!invoice_ids_in_order(prefix).contains(item.invoice_id@)) by {
                        if invoice_ids_in_order(prefix).contains(item.invoice_id@) {
                            let t = choose|t: int| 0 <= t < invoice_ids_in_order(prefix).len()
                                && invoice_ids_in_order(prefix)[t] == item.invoice_id@;
                            assert(group_ids(old_groups)[t] == old_groups[t].invoice_id@);
                        }
                    }
                    assert(next.drop_last() =~= prefix);
                    assert(group_ids(groups@) =~= group_ids(old_groups).push(item.invoice_id@));
                    assert forall|i: int| 0 <= i < groups@.len() implies #[trigger] groups@[i].items@.len() > 0 by {
                        if i < old_groups.len() {
                            assert(groups@[i] == old_groups[i]);
                        }
                    }
                    assert(groups@.last().items@ =~= items_with_invoice(next, item.invoice_id@));
                    assert forall|k2: int| 0 <= k2 < next.len() implies exists|i: int|
                        0 <= i < groups@.len() && #[trigger] groups@[i].invoice_id@
                            == #[trigger] next[k2].invoice_id@ by {
                        if k2 < k {
                            assert(next[k2] == prefix[k2]);
                            let i = choose|i: int|
                                0 <= i < old_groups.len() && #[trigger] old_groups[i].invoice_id@
                                    == #[trigger] prefix[k2].invoice_id@;
                            assert(groups@[i] == old_groups[i]);
                        } else {
                            assert(next[k2] == item);
                            assert(groups@[old_groups.len() as int].invoice_id@ == item.invoice_id@);
                        }
                    }
                    assert forall|i: int| 0 <= i < groups@.len() implies #[trigger] groups@[i].items@
                        == items_with_invoice(next, groups@[i].invoice_id@) by {
                        if i < old_groups.len() {
                            assert(groups@[i] == old_groups[i]);
                        }
                    }
                }
            },
        }
    }
    assert(items@.take(n as int) =~= items@);
    assert(group_ids(groups@).len() == groups@.len());
    InvoiceItemGroups { groups }
}

fn clone_items(items: &Vec<InvoiceItemRecord>) -> (r: Vec<InvoiceItemRecord>)
    ensures
        r@ == items@,
{
    let mut out: Vec<InvoiceItemRecord> = Vec::new();
    for i in 0..items.len()
        invariant
            out@ == items@.take(i as int),
    {
        out.push(clone_item(&items[i]));
        assert(out@ =~= items@.take(i + 1));
    }
    assert(items@.take(items@.len() as int) =~= items@);
    out
}

/// The lines of invoice `invoice_id`, none when it has no group.
pub fn items_for_invoice(groups: &InvoiceItemGroups, invoice_id: &str) -> (r: Vec<InvoiceItemRecord>)
    ensures
        r@ == lookup_group(groups.groups@, invoice_id@),
{
    let n = groups.groups.len();
    let mut i: usize = 0;
    assert(groups.groups@.skip(0) =~= groups.groups@);
    while i < n
        invariant
            n == groups.groups@.len(),
            i <= n,
            lookup_group(groups.groups@, invoice_id@) == lookup_group(
                groups.groups@.skip(i as int),
                invoice_id@,
            ),
        decreases n - i,
    {
        let ghost rest = groups.groups@.skip(i as int);
        assert(rest[0] == groups.groups@[i as int]);
        if crate::json::key_eq(&groups.groups[i].invoice_id, invoice_id) {
            return clone_items(&groups.groups[i].items);
        }
        assert(rest.drop_first() =~= groups.groups@.skip(i + 1));
        i = i + 1;
    }
    Vec::new()
}

/// Looking invoice lines up in their grouping gives exactly the lines of
/// that invoice, in order, and none for an invoice without lines.
pub proof fn lemma_lookup_after_grouping(
    groups: Seq<InvoiceItemGroup>,
    items: Seq<InvoiceItemRecord>,
    id: Seq<char>,
)
    requires
        groups_of(groups, items),
    ensures
        lookup_group(groups, id) == items_with_invoice(items, id),
    decreases groups.len(),
{
    if exists|i: int| 0 <= i < groups.len() && #[trigger] groups[i].invoice_id@ == id {
        let i = choose|i: int| 0 <= i < groups.len() && #[trigger] groups[i].invoice_id@ == id;
        lemma_lookup_finds(groups, id, i);
    } else {
        assert forall|k: int| 0 <= k < items.len() implies #[trigger] items[k].invoice_id@ != id by {
            let i = choose|i: int|
                0 <= i < groups.len() && #[trigger] groups[i].invoice_id@ == #[trigger] items[k].invoice_id@;
        }
        lemma_items_with_none(items, id);
        lemma_lookup_missing(groups, id);
    }
}

proof fn lemma_lookup_finds(groups: Seq<InvoiceItemGroup>, id: Seq<char>, i: int)
    requires
        0 <= i < groups.len(),
        groups[i].invoice_id@ == id,
        forall|a: int, b: int|
            0 <= a < b < groups.len() ==> #[trigger] groups[a].invoice_id@ != #[trigger] groups[b].invoice_id@,
    ensures
        lookup_group(groups, id) == groups[i].items@,
    decreases i,
{
    if i > 0 {
        assert(groups[0].invoice_id@ != groups[i].invoice_id@);
        let rest = groups.drop_first();
        assert forall|a: int, b: int|
            0 <= a < b < rest.len() implies #[trigger] rest[a].invoice_id@ != #[trigger] rest[b].invoice_id@ by {
            assert(rest[a] == groups[a + 1] && rest[b] == groups[b + 1]);
        }
        lemma_lookup_finds(rest, id, i - 1);
    }
}

proof fn lemma_lookup_missing(groups: Seq<InvoiceItemGroup>, id: Seq<char>)
    requires
        forall|i: int| 0 <= i < groups.len() ==> #[trigger] groups[i].invoice_id@ != id,
    ensures
        lookup_group(groups, id) == Seq::<InvoiceItemRecord>::empty(),
    decreases groups.len(),
{
    if groups.len() > 0 {
        let rest = groups.drop_first();
        assert forall|i: int| 0 <= i < rest.len() implies #[trigger] rest[i].invoice_id@ != id by {
            assert(rest[i] == groups[i + 1]);
        }
        lemma_lookup_missing(rest, id);
    }
}

/// What one statement run by the store gave: the number of rows it
/// affected, or the text of its failure.
#[derive(Debug, Clone, PartialEq, Eq)]
pub enum StatementOutcome {
    Applied(u64),
    Failed(String),
}

/// Where a store command goes next: on to another stage, or finished with
/// its result.
#[derive(Debug)]
pub enum CommandTransition<S, T> {
    Continue(S),
    Finish(Result<T, CommerceServiceError>),
}

/// The stage finishes with the store error of `context` when the statement
/// failed, and otherwise goes on to `next`.
pub open spec fn statement_step<S, T>(
    outcome: StatementOutcome,
    context: Seq<char>,
    next: S,
    t: CommandTransition<S, T>,
) -> bool {
    match outcome {
        StatementOutcome::Failed(text) => t matches CommandTransition::Finish(Err(e)) && error_with(
            e,
            "storage"@,
            context + ": "@ + text@,
        ),
        StatementOutcome::Applied(_) => t == CommandTransition::<S, T>::Continue(next),
    }
}

/// A read-back finishes with the invoice read, with `missing` when it is
/// gone, or with the read's own error.
pub open spec fn read_back_step<S>(
    read: Result<Option<InvoiceRecord>, CommerceServiceError>,
    missing_code: Seq<char>,
    missing_message: Seq<char>,
    t: CommandTransition<S, InvoiceRecord>,
) -> bool {
    match read {
        Ok(Some(record)) => t == CommandTransition::<S, InvoiceRecord>::Finish(Ok(record)),
        Ok(None) => t matches CommandTransition::Finish(Err(e)) && error_with(e, missing_code, missing_message),
        Err(e) => t == CommandTransition::<S, InvoiceRecord>::Finish(Err(e)),
    }
}

fn step_after_statement<S, T>(outcome: StatementOutcome, context: &str, next: S) -> (t: CommandTransition<S, T>)
    ensures
        statement_step(outcome, context@, next, t),
{
    match outcome {
        StatementOutcome::Failed(text) => CommandTransition::Finish(Err(store_error(context, text.as_str()))),
        StatementOutcome::Applied(_) => CommandTransition::Continue(next),
    }
}

fn step_after_read_back<S>(
    read: Result<Option<InvoiceRecord>, CommerceServiceError>,
    missing: CommerceServiceError,
) -> (t: CommandTransition<S, InvoiceRecord>)
    ensures
        read_back_step(read, missing.code@, missing.message@, t),
{
    match read {
        Ok(Some(record)) => CommandTransition::Finish(Ok(record)),
        Ok(None) => CommandTransition::Finish(Err(missing)),
        Err(e) => CommandTransition::Finish(Err(e)),
    }
}

/// The stages of creating an invoice: a transaction that inserts the title,
/// the invoice and its line, then reading the new invoice back.
#[derive(Debug, Clone, Copy, PartialEq, Eq)]
pub enum CreateInvoiceStage {
    BeginTransaction,
    InsertTitle,
    InsertInvoice,
    InsertItem,
    Commit,
    ReadBack,
}

/// What the store answered to a stage: a statement's outcome, or an invoice
/// read.
#[derive(Debug)]
pub enum StoreAnswer {
    Statement(StatementOutcome),
    Read(Result<Option<InvoiceRecord>, CommerceServiceError>),
}

/// The stages that read, rather than run a statement.
pub open spec fn create_stage_reads(stage: CreateInvoiceStage) -> bool {
    stage == CreateInvoiceStage::ReadBack
}

/// The statement stages in order, each with the context of its failure.
pub open spec fn create_statement_stage(stage: CreateInvoiceStage) -> (Seq<char>, CreateInvoiceStage) {
    match stage {
        CreateInvoiceStage::BeginTransaction => (
            "failed to begin create invoice transaction"@,
            CreateInvoiceStage::InsertTitle,
        ),
        CreateInvoiceStage::InsertTitle => ("failed to insert invoice title"@, CreateInvoiceStage::InsertInvoice),
        CreateInvoiceStage::InsertInvoice => ("failed to insert invoice"@, CreateInvoiceStage::InsertItem),
        CreateInvoiceStage::InsertItem => ("failed to insert invoice item"@, CreateInvoiceStage::Commit),
        _ => ("failed to commit create invoice transaction"@, CreateInvoiceStage::ReadBack),
    }
}

/// The next step of creating an invoice: a failed statement ends it with a
/// store error naming the stage, an applied one moves to the next stage, and
/// reading back ends it with the invoice, or with a storage error when the
/// new invoice cannot be read.
pub fn create_invoice_next(stage: CreateInvoiceStage, answer: StoreAnswer) -> (t: CommandTransition<
    CreateInvoiceStage,
    InvoiceRecord,
>)
    requires
        answer is Read <==> create_stage_reads(stage),
    ensures
        match answer {
            StoreAnswer::Statement(outcome) => statement_step(
                outcome,
                create_statement_stage(stage).0,
                create_statement_stage(stage).1,
                t,
            ),
            StoreAnswer::Read(read) => read_back_step(
                read,
                "storage"@,
                "created invoice was not readable"@,
                t,
            ),
        },
{
    match answer {
        StoreAnswer::Statement(outcome) => match stage {
            CreateInvoiceStage::BeginTransaction => step_after_statement(
                outcome,
                "failed to begin create invoice transaction",
                CreateInvoiceStage::InsertTitle,
            ),
            CreateInvoiceStage::InsertTitle => step_after_statement(
                outcome,
                "failed to insert invoice title",
                CreateInvoiceStage::InsertInvoice,
            ),
            CreateInvoiceStage::InsertInvoice => step_after_statement(
                outcome,
                "failed to insert invoice",
                CreateInvoiceStage::InsertItem,
            ),
            CreateInvoiceStage::InsertItem => step_after_statement(
                outcome,
                "failed to insert invoice item",
                CreateInvoiceStage::Commit,
            ),
            _ => step_after_statement(
                outcome,
                "failed to commit create invoice transaction",
                CreateInvoiceStage::ReadBack,
            ),
        },
        StoreAnswer::Read(read) => step_after_read_back(
            read,
            CommerceServiceError::storage("created invoice was not readable"),
        ),
    }
}

/// The stages of submitting an invoice: moving a draft or failed invoice to
/// `submitted`, then reading it back.
#[derive(Debug, Clone, Copy, PartialEq, Eq)]
pub enum SubmitInvoiceStage {
    UpdateStatus,
    ReadBack,
}

/// The next step of submitting an invoice: an update that changed no row
/// ends it with a conflict, a failed one with a store error, and reading
/// back ends it with the invoice or `not-found`.
pub fn submit_invoice_next(stage: SubmitInvoiceStage, answer: StoreAnswer) -> (t: CommandTransition<
    SubmitInvoiceStage,
    InvoiceRecord,
>)
    requires
        answer is Read <==> stage == SubmitInvoiceStage::ReadBack,
    ensures
        match answer {
            StoreAnswer::Statement(StatementOutcome::Applied(rows)) => if rows == 0 {
                t matches CommandTransition::Finish(Err(e)) && error_with(
                    e,
                    "conflict"@,
                    "invoice is not submittable or was not found"@,
                )
            } else {
                t == CommandTransition::<SubmitInvoiceStage, InvoiceRecord>::Continue(
                    SubmitInvoiceStage::ReadBack,
                )
            },
            StoreAnswer::Statement(outcome) => statement_step(
                outcome,
                "failed to submit invoice"@,
                SubmitInvoiceStage::ReadBack,
                t,
            ),
            StoreAnswer::Read(read) => read_back_step(read, "not-found"@, "invoice was not found"@, t),
        },
{
    match answer {
        StoreAnswer::Statement(StatementOutcome::Applied(rows)) => if rows == 0 {
            CommandTransition::Finish(Err(CommerceServiceError::conflict("invoice is not submittable or was not found")))
        } else {
            CommandTransition::Continue(SubmitInvoiceStage::ReadBack)
        },
        StoreAnswer::Statement(outcome) => step_after_statement(
            outcome,
            "failed to submit invoice",
            SubmitInvoiceStage::ReadBack,
        ),
        StoreAnswer::Read(read) => step_after_read_back(
            read,
            CommerceServiceError::not_found("invoice was not found"),
        ),
    }
}

/// The outcome of cancelling an invoice, given the outcome of the update
/// that moves an issued or completed invoice to `cancelled`: done when a row
/// changed, a conflict when none did, a store error when it failed.
pub fn cancel_invoice_outcome(outcome: StatementOutcome) -> (r: Result<(), CommerceServiceError>)
    ensures
        match outcome {
            StatementOutcome::Applied(rows) => if rows == 0 {
                r matches Err(e) && error_with(e, "conflict"@, "invoice is not cancellable or was not found"@)
            } else {
                r == Ok::<(), CommerceServiceError>(())
            },
            StatementOutcome::Failed(text) => r matches Err(e) && error_with(
                e,
                "storage"@,
                "failed to cancel invoice"@ + ": "@ + text@,
            ),
        },
{
    match outcome {
        StatementOutcome::Applied(rows) => if rows == 0 {
            Err(CommerceServiceError::conflict("invoice is not cancellable or was not found"))
        } else {
            Ok(())
        },
        StatementOutcome::Failed(text) => Err(store_error("failed to cancel invoice", text.as_str())),
    }
}

/// The stages of updating an invoice: reading the current invoice, updating
/// its title (of the given id) when the title or tax number changes,
/// touching the invoice, then reading it back.
#[derive(Debug, Clone, PartialEq, Eq)]
pub enum UpdateInvoiceStage {
    LoadExisting,
    UpdateTitle(String),
    TouchInvoice,
    ReadBack,
}

pub open spec fn update_stage_reads(stage: UpdateInvoiceStage) -> bool {
    stage is LoadExisting || stage is ReadBack
}

/// The next step of updating an invoice. Loading: a missing invoice ends it
/// with `not-found` and one that is not in an editable status with a
/// conflict, before anything is written; otherwise the title is updated
/// first when `changes_title`. A failed statement ends it with a store
/// error, and reading back ends it with the invoice or `not-found`.
pub fn update_invoice_next(stage: UpdateInvoiceStage, changes_title: bool, answer: StoreAnswer) -> (t: CommandTransition<
    UpdateInvoiceStage,
    InvoiceRecord,
>)
    requires
        answer is Read <==> update_stage_reads(stage),
    ensures
        match answer {
            StoreAnswer::Read(read) => if stage is LoadExisting {
                match read {
                    Ok(Some(existing)) => if !is_editable_status(existing.status@) {
                        t matches CommandTransition::Finish(Err(e)) && error_with(
                            e,
                            "conflict"@,
                            "invoice is not editable in its current status"@,
                        )
                    } else if changes_title {
                        t == CommandTransition::<UpdateInvoiceStage, InvoiceRecord>::Continue(
                            UpdateInvoiceStage::UpdateTitle(existing.title_id),
                        )
                    } else {
                        t == CommandTransition::<UpdateInvoiceStage, InvoiceRecord>::Continue(
                            UpdateInvoiceStage::TouchInvoice,
                        )
                    },
                    Ok(None) => t matches CommandTransition::Finish(Err(e)) && error_with(
                        e,
                        "not-found"@,
                        "invoice was not found"@,
                    ),
                    Err(e) => t == CommandTransition::<UpdateInvoiceStage, InvoiceRecord>::Finish(Err(e)),
                }
            } else {
                read_back_step(read, "not-found"@, "invoice was not found"@, t)
            },
            StoreAnswer::Statement(outcome) => if stage is UpdateTitle {
                statement_step(outcome, "failed to update invoice title"@, UpdateInvoiceStage::TouchInvoice, t)
            } else {
                statement_step(outcome, "failed to update invoice"@, UpdateInvoiceStage::ReadBack, t)
            },
        },
{
    match answer {
        StoreAnswer::Read(read) => match stage {
            UpdateInvoiceStage::LoadExisting => match read {
                Ok(Some(existing)) => if !editable_status(existing.status.as_str()) {
                    CommandTransition::Finish(Err(CommerceServiceError::conflict("invoice is not editable in its current status")))
                } else if changes_title {
                    CommandTransition::Continue(UpdateInvoiceStage::UpdateTitle(existing.title_id))
                } else {
                    CommandTransition::Continue(UpdateInvoiceStage::TouchInvoice)
                },
                Ok(None) => CommandTransition::Finish(Err(CommerceServiceError::not_found("invoice was not found"))),
                Err(e) => CommandTransition::Finish(Err(e)),
            },
            _ => step_after_read_back(read, CommerceServiceError::not_found("invoice was not found")),
        },
        StoreAnswer::Statement(outcome) => match stage {
            UpdateInvoiceStage::UpdateTitle(_) => step_after_statement(
                outcome,
                "failed to update invoice title",
                UpdateInvoiceStage::TouchInvoice,
            ),
            _ => step_after_statement(outcome, "failed to update invoice", UpdateInvoiceStage::ReadBack),
        },
    }
}

/// Whether an update changes the invoice's title record: when it gives a
/// title or a tax number.
pub fn update_changes_title(title: &Option<String>, tax_no: &Option<String>) -> (r: bool)
    ensures
        r == (title is Some || tax_no is Some),
{
    title.is_some() || tax_no.is_some()
}

} // verus!
