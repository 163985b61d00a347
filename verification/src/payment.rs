//! Payment reconciliation.
//!
//! The manager tracks the reserved allocation, the amount paid so far, a
//! high-water-mark timestamp per billing feed, and the set of agreement ids
//! the caller has authorized for payment.  An invoice is accepted only when
//! its agreement id is currently authorized — and the authorization is
//! consumed, one-shot, on acceptance; any other invoice is rejected as
//! unsolicited with zero accepted amount.  Amounts are carried in the
//! currency's smallest integer unit.

use vstd::prelude::*;

verus! {

/// A provider-issued bill for completed work under one agreement.
pub struct Invoice {
    pub invoice_id: String,
    pub agreement_id: String,
    pub issuer_id: String,
    pub amount: u64,
}

#[derive(Clone, Copy, PartialEq, Eq, Structural, Debug)]
pub enum InvoiceEventType {
    Received,
    Other,
}

/// One entry of the invoice event feed.
pub struct InvoiceEvent {
    pub invoice_id: String,
    pub event_type: InvoiceEventType,
    pub event_date: i64,
}

/// One entry of the debit-note event feed; the manager only advances its
/// timestamp over these.
pub struct DebitNoteEvent {
    pub event_date: i64,
}

#[derive(Clone, Copy, PartialEq, Eq, Structural, Debug)]
pub enum RejectionReason {
    UnsolicitedService,
}

/// What the reconciliation loop should do with one fetched invoice.
pub enum InvoiceAction {
    Accept { invoice_id: String, allocation_id: String, amount: u64 },
    Reject { invoice_id: String, reason: RejectionReason, amount: u64 },
}

/// The invoice ids of the "received" events, in feed order: the invoices the
/// loop fetches in full before deciding on them.
pub open spec fn received_ids(events: Seq<InvoiceEvent>) -> Seq<String>
    decreases events.len(),
{
    if events.len() == 0 {
        Seq::empty()
    } else {
        let rest = received_ids(events.drop_last());
        if events.last().event_type is Received {
            rest.push(events.last().invoice_id)
        } else {
            rest
        }
    }
}

/// The payment reconciliation state.
pub struct PaymentManager {
    pub allocation_id: String,
    pub total_amount: u64,
    pub amount_paid: u64,
    pub valid_agreements: Vec<String>,
    pub last_debit_note_event: i64,
    pub last_invoice_event: i64,
}

impl PaymentManager {
    /// The authorized set holds each agreement id at most once.
    pub open spec fn wf(&self) -> bool {
        forall|i: int, j: int|
            0 <= i < j < self.valid_agreements@.len() ==> (#[trigger] self.valid_agreements@[i])@
                != (#[trigger] self.valid_agreements@[j])@
    }

    /// Whether an agreement id is currently authorized for payment.
    pub open spec fn authorized(&self, id: Seq<char>) -> bool {
        exists|i: int|
            0 <= i < self.valid_agreements@.len() && (#[trigger] self.valid_agreements@[i])@ == id
    }

    pub fn new(allocation_id: String, total_amount: u64, now: i64) -> (r: PaymentManager)
        ensures
            r.wf(),
            r.allocation_id == allocation_id,
            r.total_amount == total_amount,
            r.amount_paid == 0,
            r.valid_agreements@ =~= Seq::<String>::empty(),
            r.last_debit_note_event == now,
            r.last_invoice_event == now,
    {
        PaymentManager {
            allocation_id,
            total_amount,
            amount_paid: 0,
            valid_agreements: Vec::new(),
            last_debit_note_event: now,
            last_invoice_event: now,
        }
    }

    /// Marks an agreement as payable; called once negotiation and dispatch
    /// for that agreement have succeeded.  Authorizing an id twice leaves
    /// the set unchanged.
    pub fn accept_agreement(&mut self, agreement_id: String)
        requires
            old(self).wf(),
        ensures
            final(self).wf(),
            final(self).authorized(agreement_id@),
            forall|id: Seq<char>|
                #[trigger] final(self).authorized(id) <==> (old(self).authorized(id) || id
                    == agreement_id@),
            old(self).authorized(agreement_id@) ==> final(self).valid_agreements@ == old(
                self,
            ).valid_agreements@,
            !old(self).authorized(agreement_id@) ==> final(self).valid_agreements@ == old(
                self,
            ).valid_agreements@.push(agreement_id),
            final(self).allocation_id == old(self).allocation_id,
            final(self).total_amount == old(self).total_amount,
            final(self).amount_paid == old(self).amount_paid,
            final(self).last_debit_note_event == old(self).last_debit_note_event,
            final(self).last_invoice_event == old(self).last_invoice_event,
    {
        let ghost vs = self.valid_agreements@;
        let mut i: usize = 0;
        while i < self.valid_agreements.len()
            invariant
                i <= vs.len(),
                vs == self.valid_agreements@,
                forall|k: int| 0 <= k < i ==> (#[trigger] vs[k])@ != agreement_id@,
                self == old(self),
                old(self).wf(),
            decreases vs.len() - i,
        {
            if self.valid_agreements[i] == agreement_id {
                proof {
                    assert(self.valid_agreements@[i as int]@ == agreement_id@);
                    assert(old(self).authorized(agreement_id@));
                }
                return ;
            }
            i = i + 1;
        }
        self.valid_agreements.push(agreement_id);
        proof {
            assert(self.valid_agreements@ =~= vs.push(agreement_id));
            assert(self.valid_agreements@[vs.len() as int]@ == agreement_id@);
            assert forall|id: Seq<char>| #[trigger]
                self.authorized(id) implies (old(self).authorized(id) || id == agreement_id@) by {
                let w = choose|w: int|
                    0 <= w < self.valid_agreements@.len() && (#[trigger] self.valid_agreements@[w])@
                        == id;
                if w < vs.len() {
                    assert(vs[w]@ == id);
                }
            }
            assert forall|id: Seq<char>| old(self).authorized(id) implies #[trigger] self.authorized(
                id,
            ) by {
                let w = choose|w: int| 0 <= w < vs.len() && (#[trigger] vs[w])@ == id;
                assert(self.valid_agreements@[w]@ == id);
            }
        }
    }

    /// The number of agreements still awaiting settlement.
    pub fn pending_agreements(&self) -> (r: usize)
        ensures
            r == self.valid_agreements@.len(),
    {
        self.valid_agreements.len()
    }

    /// Decides one fetched invoice.  An invoice whose agreement id is
    /// currently authorized is accepted for its full amount against the
    /// allocation, the authorization is removed exactly once, and the amount
    /// paid grows by exactly the invoice amount.  Any other invoice is
    /// rejected as unsolicited with zero accepted amount, and nothing
    /// changes.
    pub fn process_invoice(&mut self, invoice: &Invoice) -> (a: InvoiceAction)
        requires
            old(self).wf(),
            old(self).amount_paid + invoice.amount <= u64::MAX,
        ensures
            final(self).wf(),
            final(self).allocation_id == old(self).allocation_id,
            final(self).total_amount == old(self).total_amount,
            final(self).last_debit_note_event == old(self).last_debit_note_event,
            final(self).last_invoice_event == old(self).last_invoice_event,
            old(self).authorized(invoice.agreement_id@) ==> {
                &&& a matches InvoiceAction::Accept { invoice_id, allocation_id, amount } && {
                    &&& invoice_id@ == invoice.invoice_id@
                    &&& allocation_id@ == old(self).allocation_id@
                    &&& amount == invoice.amount
                }
                &&& final(self).amount_paid == old(self).amount_paid + invoice.amount
                &&& !final(self).authorized(invoice.agreement_id@)
                &&& forall|id: Seq<char>|
                    id != invoice.agreement_id@ ==> (#[trigger] final(self).authorized(id) <==> old(
                        self,
                    ).authorized(id))
                &&& final(self).valid_agreements@.len() == old(self).valid_agreements@.len() - 1
            },
            !old(self).authorized(invoice.agreement_id@) ==> {
                &&& a matches InvoiceAction::Reject { invoice_id, reason, amount } && {
                    &&& invoice_id@ == invoice.invoice_id@
                    &&& reason == RejectionReason::UnsolicitedService
                    &&& amount == 0
                }
                &&& final(self).amount_paid == old(self).amount_paid
                &&& final(self).valid_agreements@ == old(self).valid_agreements@
            },
    {
        let ghost vs = self.valid_agreements@;
        let mut i: usize = 0;
        while i < self.valid_agreements.len()
            invariant
                i <= vs.len(),
                vs == self.valid_agreements@,
                forall|k: int| 0 <= k < i ==> (#[trigger] vs[k])@ != invoice.agreement_id@,
                self == old(self),
                old(self).wf(),
                old(self).amount_paid + invoice.amount <= u64::MAX,
            decreases vs.len() - i,
        {
            if self.valid_agreements[i] == invoice.agreement_id {
                let _removed = self.valid_agreements.remove(i);
                self.amount_paid = self.amount_paid + invoice.amount;
                proof {
                    let vs2 = self.valid_agreements@;
                    assert(vs2 =~= vs.subrange(0, i as int) + vs.subrange(
                        i + 1,
                        vs.len() as int,
                    ));
                    // the remaining entries are exactly the old entries with
                    // the one position spliced out
                    assert forall|k: int| 0 <= k < vs2.len() implies (#[trigger] vs2[k]) == (if k
                        < i { vs[k] } else { vs[k + 1] }) by {}
                    assert(self.wf());
                    if self.authorized(invoice.agreement_id@) {
                        let w = choose|w: int|
                            0 <= w < vs2.len() && (#[trigger] vs2[w])@ == invoice.agreement_id@;
                        if w < i {
                            assert(vs[w]@ == vs[i as int]@);
                        } else {
                            assert(vs[w + 1]@ == vs[i as int]@);
                        }
                    }
                    assert forall|id: Seq<char>|
                        id != invoice.agreement_id@ && old(self).authorized(id) implies #[trigger]
                        self.authorized(id) by {
                        let w = choose|w: int| 0 <= w < vs.len() && (#[trigger] vs[w])@ == id;
                        if w < i {
                            assert(vs2[w]@ == id);
                        } else {
                            assert(vs[w]@ != vs[i as int]@);
                            assert(vs2[w - 1]@ == id);
                        }
                    }
                    assert forall|id: Seq<char>|
                        id != invoice.agreement_id@ && #[trigger] self.authorized(id) implies old(
                        self,
                    ).authorized(id) by {
                        let w = choose|w: int| 0 <= w < vs2.len() && (#[trigger] vs2[w])@ == id;
                        if w < i {
                            assert(vs[w]@ == id);
                        } else {
                            assert(vs[w + 1]@ == id);
                        }
                    }
                }
                return InvoiceAction::Accept {
                    invoice_id: invoice.invoice_id.clone(),
                    allocation_id: self.allocation_id.clone(),
                    amount: invoice.amount,
                };
            }
            i = i + 1;
        }
        InvoiceAction::Reject {
            invoice_id: invoice.invoice_id.clone(),
            reason: RejectionReason::UnsolicitedService,
            amount: 0,
        }
    }

    /// Filters one page of the invoice event feed down to the invoices worth
    /// fetching: those announced by a "received" event, in feed order.
    pub fn invoices_to_fetch(events: &Vec<InvoiceEvent>) -> (r: Vec<String>)
        ensures
            r@ == received_ids(events@),
    {
        let mut r: Vec<String> = Vec::new();
        let mut i: usize = 0;
        while i < events.len()
            invariant
                i <= events@.len(),
                r@ == received_ids(events@.take(i as int)),
            decreases events@.len() - i,
        {
            proof {
                assert(events@.take(i + 1).drop_last() =~= events@.take(i as int));
                assert(events@.take(i + 1).last() == events@[i as int]);
            }
            match events[i].event_type {
                InvoiceEventType::Received => {
                    r.push(events[i].invoice_id.clone());
                    proof {
                        assert(r@ =~= received_ids(events@.take(i + 1)));
                    }
                },
                InvoiceEventType::Other => {},
            }
            i = i + 1;
        }
        proof {
            assert(events@.take(events@.len() as int) =~= events@);
        }
        r
    }

    /// Advances the invoice-feed timestamp to the last event's time; an
    /// empty page leaves it where it stood.
    pub fn observe_invoice_events(&mut self, events: &Vec<InvoiceEvent>)
        ensures
            final(self).last_invoice_event == if events@.len() == 0 {
                old(self).last_invoice_event
            } else {
                events@.last().event_date
            },
            final(self).allocation_id == old(self).allocation_id,
            final(self).total_amount == old(self).total_amount,
            final(self).amount_paid == old(self).amount_paid,
            final(self).valid_agreements == old(self).valid_agreements,
            final(self).last_debit_note_event == old(self).last_debit_note_event,
    {
        if events.len() > 0 {
            self.last_invoice_event = events[events.len() - 1].event_date;
        }
    }

    /// Advances the debit-note-feed timestamp to the last event's time; an
    /// empty page leaves it where it stood.
    pub fn observe_debit_note_events(&mut self, events: &Vec<DebitNoteEvent>)
        ensures
            final(self).last_debit_note_event == if events@.len() == 0 {
                old(self).last_debit_note_event
            } else {
                events@.last().event_date
            },
            final(self).allocation_id == old(self).allocation_id,
            final(self).total_amount == old(self).total_amount,
            final(self).amount_paid == old(self).amount_paid,
            final(self).valid_agreements == old(self).valid_agreements,
            final(self).last_invoice_event == old(self).last_invoice_event,
    {
        if events.len() > 0 {
            self.last_debit_note_event = events[events.len() - 1].event_date;
        }
    }
}

} // verus!
