use yarapi::payment::{
    DebitNoteEvent, Invoice, InvoiceAction, InvoiceEvent, InvoiceEventType, PaymentManager,
    RejectionReason,
};

fn invoice(id: &str, agreement: &str, amount: u64) -> Invoice {
    Invoice {
        invoice_id: id.to_string(),
        agreement_id: agreement.to_string(),
        issuer_id: "issuer".to_string(),
        amount,
    }
}

fn invoice_event(id: &str, kind: InvoiceEventType, date: i64) -> InvoiceEvent {
    InvoiceEvent { invoice_id: id.to_string(), event_type: kind, event_date: date }
}

#[test]
fn authorized_invoice_is_accepted_exactly_once() {
    let mut pm = PaymentManager::new("alloc-1".to_string(), 1000, 42);
    pm.accept_agreement("agr-1".to_string());
    assert_eq!(pm.pending_agreements(), 1);

    match pm.process_invoice(&invoice("inv-1", "agr-1", 250)) {
        InvoiceAction::Accept { invoice_id, allocation_id, amount } => {
            assert_eq!(invoice_id, "inv-1");
            assert_eq!(allocation_id, "alloc-1");
            assert_eq!(amount, 250, "accepted for exactly the invoice amount");
        }
        InvoiceAction::Reject { .. } => panic!("an authorized invoice must be accepted"),
    }
    assert_eq!(pm.amount_paid, 250, "amount paid grows by exactly the invoice amount");
    assert_eq!(pm.pending_agreements(), 0, "the authorization is consumed");

    // the same agreement again: the authorization was one-shot
    match pm.process_invoice(&invoice("inv-2", "agr-1", 10)) {
        InvoiceAction::Reject { invoice_id, reason, amount } => {
            assert_eq!(invoice_id, "inv-2");
            assert!(matches!(reason, RejectionReason::UnsolicitedService));
            assert_eq!(amount, 0);
        }
        InvoiceAction::Accept { .. } => panic!("a spent authorization must not pay again"),
    }
    assert_eq!(pm.amount_paid, 250);
}

#[test]
fn unsolicited_invoice_is_rejected_with_zero_amount() {
    let mut pm = PaymentManager::new("alloc-1".to_string(), 1000, 0);
    pm.accept_agreement("agr-known".to_string());
    match pm.process_invoice(&invoice("inv-9", "agr-unknown", 5)) {
        InvoiceAction::Reject { reason, amount, .. } => {
            assert!(matches!(reason, RejectionReason::UnsolicitedService));
            assert_eq!(amount, 0);
        }
        InvoiceAction::Accept { .. } => panic!("an unknown agreement must be rejected"),
    }
    assert_eq!(pm.amount_paid, 0);
    assert_eq!(pm.pending_agreements(), 1, "other authorizations are untouched");
}

#[test]
fn authorizing_twice_keeps_one_entry() {
    let mut pm = PaymentManager::new("alloc".to_string(), 0, 0);
    pm.accept_agreement("agr".to_string());
    pm.accept_agreement("agr".to_string());
    assert_eq!(pm.pending_agreements(), 1);
    pm.accept_agreement("other".to_string());
    assert_eq!(pm.pending_agreements(), 2);
}

#[test]
fn only_received_invoice_events_are_fetched() {
    let events = vec![
        invoice_event("i1", InvoiceEventType::Received, 10),
        invoice_event("i2", InvoiceEventType::Other, 11),
        invoice_event("i3", InvoiceEventType::Received, 12),
    ];
    let ids = PaymentManager::invoices_to_fetch(&events);
    assert_eq!(ids, vec!["i1".to_string(), "i3".to_string()]);
}

#[test]
fn feed_timestamps_advance_to_the_last_event() {
    let mut pm = PaymentManager::new("alloc".to_string(), 0, 100);
    assert_eq!(pm.last_invoice_event, 100);
    assert_eq!(pm.last_debit_note_event, 100);

    pm.observe_invoice_events(&vec![
        invoice_event("i1", InvoiceEventType::Received, 110),
        invoice_event("i2", InvoiceEventType::Other, 120),
    ]);
    assert_eq!(pm.last_invoice_event, 120);
    assert_eq!(pm.last_debit_note_event, 100);

    pm.observe_invoice_events(&vec![]);
    assert_eq!(pm.last_invoice_event, 120, "an empty page leaves the timestamp");

    pm.observe_debit_note_events(&vec![
        DebitNoteEvent { event_date: 130 },
        DebitNoteEvent { event_date: 140 },
    ]);
    assert_eq!(pm.last_debit_note_event, 140);
    pm.observe_debit_note_events(&vec![]);
    assert_eq!(pm.last_debit_note_event, 140);
}
