use sdkwork_invoice::invoice_api::{CommerceServiceError, InvoiceItemRecord, InvoiceRecord};
use sdkwork_invoice::repository::{
    cancel_invoice_outcome, command_timestamp_from_seconds, create_invoice_next, editable_status,
    group_items_by_invoice, invoice_command_timestamp, invoice_item_from_cells, items_for_invoice,
    map_invoice_row, new_invoice_identifiers, optional_string_cell, store_error, string_cell,
    submit_invoice_next, update_changes_title, update_invoice_next, CommandTransition,
    CreateInvoiceStage, InvoiceCells, InvoiceItemCells, StatementOutcome, StoreAnswer,
    SubmitInvoiceStage, UpdateInvoiceStage,
};

fn item(id: &str, invoice_id: &str) -> InvoiceItemRecord {
    InvoiceItemRecord {
        id: id.to_owned(),
        tenant_id: "t".to_owned(),
        invoice_id: invoice_id.to_owned(),
        order_item_id: None,
        title: format!("title {id}"),
        amount: "1.00".to_owned(),
        tax_amount: "0.00".to_owned(),
        created_at: "1".to_owned(),
    }
}

fn record(status: &str) -> InvoiceRecord {
    InvoiceRecord {
        id: "invoice-1".to_owned(),
        tenant_id: "t".to_owned(),
        organization_id: None,
        owner_user_id: "u".to_owned(),
        order_id: "o".to_owned(),
        payment_id: "p".to_owned(),
        title_id: "title-9".to_owned(),
        status: status.to_owned(),
        invoice_no: None,
        invoice_code: None,
        document_url: None,
        created_at: "1".to_owned(),
        issued_at: None,
        updated_at: "2".to_owned(),
        total_amount: "0.00".to_owned(),
        items: Vec::new(),
    }
}

#[test]
fn timestamps_are_decimal_seconds() {
    assert_eq!(command_timestamp_from_seconds(Some(1_700_000_000)), "1700000000");
    assert_eq!(command_timestamp_from_seconds(None), "0");
    assert_eq!(command_timestamp_from_seconds(Some(u64::MAX)), "-1");
    let now = invoice_command_timestamp();
    assert!(!now.is_empty() && now.chars().all(|c| c.is_ascii_digit()));
    assert!(now.parse::<i64>().unwrap() > 1_600_000_000);
}

#[test]
fn new_invoice_identifiers_follow_the_timestamp() {
    let ids = new_invoice_identifiers("1700000000");
    assert_eq!(ids.invoice_id, "invoice-1700000000");
    assert_eq!(ids.title_id, "title-1700000000");
    assert_eq!(ids.item_id, "invoice-item-1700000000");
    assert_eq!(ids.order_id, "manual-invoice-1700000000");
    assert_eq!(ids.payment_id, "manual-payment-invoice-1700000000");
}

#[test]
fn cells_are_normalised() {
    assert_eq!(string_cell(None), "");
    assert_eq!(string_cell(Some(" a ".to_owned())), " a ");
    assert_eq!(optional_string_cell(Some("  x\u{3000}".to_owned())), Some("x".to_owned()));
    assert_eq!(optional_string_cell(Some(" \t\n".to_owned())), None);
    assert_eq!(optional_string_cell(None), None);
    let line = invoice_item_from_cells(InvoiceItemCells {
        id: Some("i".to_owned()),
        tenant_id: None,
        invoice_id: Some("inv".to_owned()),
        order_item_id: Some("  ".to_owned()),
        title: Some("T".to_owned()),
        amount: Some("1".to_owned()),
        tax_amount: Some("0".to_owned()),
        created_at: Some("3".to_owned()),
    });
    assert_eq!(line.tenant_id, "");
    assert_eq!(line.order_item_id, None);
    let row = map_invoice_row(InvoiceCells {
        id: Some("inv".to_owned()),
        tenant_id: Some("t".to_owned()),
        organization_id: Some(" org ".to_owned()),
        owner_user_id: Some("u".to_owned()),
        order_id: None,
        payment_id: None,
        title_id: None,
        status: Some("draft".to_owned()),
        invoice_no: None,
        invoice_code: Some("".to_owned()),
        document_url: None,
        created_at: None,
        issued_at: Some(" 5 ".to_owned()),
        updated_at: None,
    });
    assert_eq!(row.organization_id.as_deref(), Some("org"));
    assert_eq!(row.invoice_code, None);
    assert_eq!(row.issued_at.as_deref(), Some("5"));
}

#[test]
fn store_errors_name_their_context() {
    let e = store_error("failed to insert invoice", "disk full");
    assert_eq!(e, CommerceServiceError::new("storage", "failed to insert invoice: disk full"));
}

#[test]
fn grouped_lines_are_looked_up_per_invoice() {
    let items = vec![item("a", "inv-1"), item("b", "inv-2"), item("c", "inv-1")];
    let groups = group_items_by_invoice(&items);
    assert_eq!(groups.groups.len(), 2);
    assert_eq!(items_for_invoice(&groups, "inv-1"), vec![item("a", "inv-1"), item("c", "inv-1")]);
    assert_eq!(items_for_invoice(&groups, "inv-2"), vec![item("b", "inv-2")]);
    assert_eq!(items_for_invoice(&groups, "inv-3"), Vec::<InvoiceItemRecord>::new());
}

#[test]
fn groups_follow_first_appearance_and_are_never_empty() {
    let items = vec![item("a", "inv-2"), item("b", "inv-1"), item("c", "inv-2"), item("d", "inv-3")];
    let groups = group_items_by_invoice(&items);
    let ids: Vec<&str> = groups.groups.iter().map(|g| g.invoice_id.as_str()).collect();
    assert_eq!(ids, vec!["inv-2", "inv-1", "inv-3"]);
    assert!(groups.groups.iter().all(|g| !g.items.is_empty()));
    assert!(group_items_by_invoice(&Vec::new()).groups.is_empty());
}

#[test]
fn later_clock_readings_give_larger_timestamps() {
    let earlier = command_timestamp_from_seconds(Some(999));
    let later = command_timestamp_from_seconds(Some(1_000));
    assert!(earlier.parse::<i64>().unwrap() < later.parse::<i64>().unwrap());
    assert_eq!(command_timestamp_from_seconds(Some(i64::MAX as u64)).parse::<i64>().unwrap(), i64::MAX);
}

#[test]
fn editable_statuses() {
    assert!(editable_status("draft"));
    assert!(editable_status("FAILED"));
    assert!(!editable_status("submitted"));
    assert!(!editable_status("drafts"));
    assert!(update_changes_title(&None, &Some("x".to_owned())));
    assert!(!update_changes_title(&None, &None));
}

#[test]
fn create_runs_its_statements_in_order() {
    let mut stage = CreateInvoiceStage::BeginTransaction;
    let mut seen = vec![stage];
    loop {
        let answer = if stage == CreateInvoiceStage::ReadBack {
            StoreAnswer::Read(Ok(Some(record("draft"))))
        } else {
            StoreAnswer::Statement(StatementOutcome::Applied(1))
        };
        match create_invoice_next(stage, answer) {
            CommandTransition::Continue(next) => {
                stage = next;
                seen.push(stage);
            }
            CommandTransition::Finish(result) => {
                assert_eq!(result.unwrap().id, "invoice-1");
                break;
            }
        }
    }
    assert_eq!(
        seen,
        vec![
            CreateInvoiceStage::BeginTransaction,
            CreateInvoiceStage::InsertTitle,
            CreateInvoiceStage::InsertInvoice,
            CreateInvoiceStage::InsertItem,
            CreateInvoiceStage::Commit,
            CreateInvoiceStage::ReadBack,
        ]
    );
    match create_invoice_next(CreateInvoiceStage::InsertItem, StoreAnswer::Statement(StatementOutcome::Failed("boom".to_owned()))) {
        CommandTransition::Finish(Err(e)) => assert_eq!(e.message, "failed to insert invoice item: boom"),
        other => panic!("unexpected {other:?}"),
    }
    match create_invoice_next(CreateInvoiceStage::ReadBack, StoreAnswer::Read(Ok(None))) {
        CommandTransition::Finish(Err(e)) => {
            assert_eq!(e, CommerceServiceError::new("storage", "created invoice was not readable"))
        }
        other => panic!("unexpected {other:?}"),
    }
}

#[test]
fn submit_and_cancel_need_an_affected_row() {
    match submit_invoice_next(SubmitInvoiceStage::UpdateStatus, StoreAnswer::Statement(StatementOutcome::Applied(0))) {
        CommandTransition::Finish(Err(e)) => {
            assert_eq!(e, CommerceServiceError::new("conflict", "invoice is not submittable or was not found"))
        }
        other => panic!("unexpected {other:?}"),
    }
    assert!(matches!(
        submit_invoice_next(SubmitInvoiceStage::UpdateStatus, StoreAnswer::Statement(StatementOutcome::Applied(1))),
        CommandTransition::Continue(SubmitInvoiceStage::ReadBack)
    ));
    match submit_invoice_next(SubmitInvoiceStage::ReadBack, StoreAnswer::Read(Ok(None))) {
        CommandTransition::Finish(Err(e)) => assert_eq!(e.code, "not-found"),
        other => panic!("unexpected {other:?}"),
    }
    assert_eq!(
        cancel_invoice_outcome(StatementOutcome::Applied(0)),
        Err(CommerceServiceError::new("conflict", "invoice is not cancellable or was not found"))
    );
    assert_eq!(cancel_invoice_outcome(StatementOutcome::Applied(2)), Ok(()));
    assert_eq!(
        cancel_invoice_outcome(StatementOutcome::Failed("x".to_owned())),
        Err(CommerceServiceError::new("storage", "failed to cancel invoice: x"))
    );
}

#[test]
fn update_refuses_invoices_that_are_not_editable() {
    match update_invoice_next(UpdateInvoiceStage::LoadExisting, true, StoreAnswer::Read(Ok(Some(record("issued"))))) {
        CommandTransition::Finish(Err(e)) => {
            assert_eq!(e, CommerceServiceError::new("conflict", "invoice is not editable in its current status"))
        }
        other => panic!("unexpected {other:?}"),
    }
    assert!(matches!(
        update_invoice_next(UpdateInvoiceStage::LoadExisting, true, StoreAnswer::Read(Ok(Some(record("Draft"))))),
        CommandTransition::Continue(UpdateInvoiceStage::UpdateTitle(ref id)) if id == "title-9"
    ));
    assert!(matches!(
        update_invoice_next(UpdateInvoiceStage::LoadExisting, false, StoreAnswer::Read(Ok(Some(record("failed"))))),
        CommandTransition::Continue(UpdateInvoiceStage::TouchInvoice)
    ));
    match update_invoice_next(UpdateInvoiceStage::LoadExisting, false, StoreAnswer::Read(Ok(None))) {
        CommandTransition::Finish(Err(e)) => assert_eq!(e.code, "not-found"),
        other => panic!("unexpected {other:?}"),
    }
    match update_invoice_next(
        UpdateInvoiceStage::UpdateTitle("t".to_owned()),
        true,
        StoreAnswer::Statement(StatementOutcome::Failed("e".to_owned())),
    ) {
        CommandTransition::Finish(Err(e)) => assert_eq!(e.message, "failed to update invoice title: e"),
        other => panic!("unexpected {other:?}"),
    }
    assert!(matches!(
        update_invoice_next(UpdateInvoiceStage::TouchInvoice, true, StoreAnswer::Statement(StatementOutcome::Applied(1))),
        CommandTransition::Continue(UpdateInvoiceStage::ReadBack)
    ));
}
