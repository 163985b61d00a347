//! Market negotiation: subscriptions, proposals, the auto-counter policy,
//! the candidate selection machine, and the agreement lifecycle.
//!
//! A published demand yields a stream of incoming proposals.  An "initial"
//! proposal — one without a previous-proposal id — is answered exactly once
//! with a counter-proposal re-asserting the caller's original demand, but
//! only while the engine is still collecting; a "response" proposal — one
//! carrying a previous id — is never auto-countered and joins the candidate
//! pool instead.  Once enough candidates have gathered, the first `target`
//! of them are taken for independent agreement negotiation and collection
//! resumes.

use vstd::prelude::*;

verus! {

/// Identifier of a demand subscription on the market.
pub struct SubscriptionId(pub String);

impl View for SubscriptionId {
    type V = Seq<char>;

    closed spec fn view(&self) -> Seq<char> {
        self.0@
    }
}

impl vstd::std_specs::convert::FromSpecImpl<String> for SubscriptionId {
    open spec fn obeys_from_spec() -> bool {
        true
    }

    open spec fn from_spec(id: String) -> Self {
        SubscriptionId(id)
    }
}

impl From<String> for SubscriptionId {
    fn from(id: String) -> (r: Self) {
        SubscriptionId(id)
    }
}

impl SubscriptionId {
    pub fn as_ref(&self) -> (r: &str)
        ensures
            r@ == self@,
    {
        self.0.as_str()
    }
}

/// A subscription handle: the id under which the demand was published.  The
/// deferred unsubscribe that releasing the handle enqueues lives with the
/// cleanup queue.
pub struct Subscription {
    pub id: SubscriptionId,
}

impl Subscription {
    pub fn new(id: SubscriptionId) -> (r: Subscription)
        ensures
            r.id@ == id@,
    {
        Subscription { id }
    }

    pub fn id(&self) -> (r: &SubscriptionId)
        ensures
            r@ == self.id@,
    {
        &self.id
    }
}

/// The caller's demand: a property set and a constraints expression.
pub struct Demand {
    pub properties: String,
    pub constraints: String,
}

impl Demand {
    pub fn new(properties: String, constraints: String) -> (r: Demand)
        ensures
            r.properties == properties,
            r.constraints == constraints,
    {
        Demand { properties, constraints }
    }
}

/// Negotiation state of a proposal; it only ever advances.
#[derive(Clone, Copy, PartialEq, Eq, Structural, Debug)]
pub enum ProposalState {
    Initial,
    Draft,
    Accepted,
    Rejected,
}

/// One step of a negotiation exchange, as polled from a subscription.
pub struct Proposal {
    pub proposal_id: String,
    pub issuer_id: String,
    pub state: ProposalState,
    pub prev_proposal_id: Option<String>,
    pub properties: String,
}

impl Proposal {
    pub fn id(&self) -> (r: &str)
        ensures
            r@ == self.proposal_id@,
    {
        self.proposal_id.as_str()
    }

    pub fn state(&self) -> (r: ProposalState)
        ensures
            r == self.state,
    {
        self.state
    }

    /// A proposal carrying a previous-proposal id answers one of ours: it is
    /// a candidate for agreement, never auto-countered.
    pub fn is_response(&self) -> (r: bool)
        ensures
            r == (self.prev_proposal_id is Some),
    {
        self.prev_proposal_id.is_some()
    }

    pub fn props(&self) -> (r: &String)
        ensures
            r == &self.properties,
    {
        &self.properties
    }

    pub fn issuer_id(&self) -> (r: &str)
        ensures
            r@ == self.issuer_id@,
    {
        self.issuer_id.as_str()
    }
}

/// One event polled from a subscription; only proposal events carry work.
pub enum RequestorEvent {
    ProposalEvent { proposal: Proposal },
    Other,
}

/// The proposals carried by a page of subscription events, in page order.
pub open spec fn proposals_in(events: Seq<RequestorEvent>) -> Seq<Proposal>
    decreases events.len(),
{
    if events.len() == 0 {
        Seq::empty()
    } else {
        let rest = proposals_in(events.drop_last());
        match events.last() {
            RequestorEvent::ProposalEvent { proposal } => rest.push(proposal),
            RequestorEvent::Other => rest,
        }
    }
}

/// Extracts the proposals from one page of polled events, dropping
/// everything else.
pub fn proposals_of_events(events: Vec<RequestorEvent>) -> (r: Vec<Proposal>)
    ensures
        r@ == proposals_in(events@),
{
    let ghost all = events@;
    let total = events.len();
    proof {
        assert(all.len() == total as int);
    }
    let mut r: Vec<Proposal> = Vec::new();
    let mut remaining = events;
    let mut i: usize = 0;
    while i < total
        invariant
            remaining@ == all.skip(i as int),
            0 <= i <= total,
            total as int == all.len(),
            r@ == proposals_in(all.take(i as int)),
        decreases total - i,
    {
        proof {
            assert(all.skip(i as int).len() == all.len() - i);
            assert(all.take(i + 1).drop_last() =~= all.take(i as int));
            assert(all.take(i + 1).last() == all[i as int]);
            assert(all.skip(i as int)[0] == all[i as int]);
            assert(all.skip(i as int).remove(0) =~= all.skip(i + 1));
        }
        match remaining.remove(0) {
            RequestorEvent::ProposalEvent { proposal } => {
                r.push(proposal);
            },
            RequestorEvent::Other => {},
        }
        i = i + 1;
    }
    proof {
        assert(all.take(all.len() as int) =~= all);
    }
    r
}

/// What to do with one incoming proposal.
pub enum ProposalAction {
    /// Answer with a counter-proposal re-asserting the original demand.
    Counter { proposal_id: String, properties: String, constraints: String },
    /// Add the proposal to the candidate pool.
    Candidate,
}

/// Mathematical value of a `ProposalAction`.
pub enum ProposalActionView {
    Counter { proposal_id: Seq<char>, properties: Seq<char>, constraints: Seq<char> },
    Candidate,
}

impl View for ProposalAction {
    type V = ProposalActionView;

    open spec fn view(&self) -> ProposalActionView {
        match self {
            ProposalAction::Counter { proposal_id, properties, constraints } => {
                ProposalActionView::Counter {
                    proposal_id: proposal_id@,
                    properties: properties@,
                    constraints: constraints@,
                }
            },
            ProposalAction::Candidate => ProposalActionView::Candidate,
        }
    }
}

/// The auto-counter policy, per proposal: an initial proposal — no previous
/// id — is countered with the original demand; a response is pooled.
pub open spec fn route_spec(p: Proposal, d: Demand) -> ProposalActionView {
    if p.prev_proposal_id is None {
        ProposalActionView::Counter {
            proposal_id: p.proposal_id@,
            properties: d.properties@,
            constraints: d.constraints@,
        }
    } else {
        ProposalActionView::Candidate
    }
}

/// Decides one incoming proposal against the original demand.
pub fn route_proposal(proposal: &Proposal, demand: &Demand) -> (a: ProposalAction)
    ensures
        a@ == route_spec(*proposal, *demand),
{
    match &proposal.prev_proposal_id {
        Option::None => ProposalAction::Counter {
            proposal_id: proposal.proposal_id.clone(),
            properties: demand.properties.clone(),
            constraints: demand.constraints.clone(),
        },
        Option::Some(_) => ProposalAction::Candidate,
    }
}

/// The actions a run of proposals produces: one per proposal, in order.
pub open spec fn route_all(ps: Seq<Proposal>, d: Demand) -> Seq<ProposalActionView> {
    Seq::new(ps.len(), |i: int| route_spec(ps[i], d))
}

/// How many of the actions counter the proposal with the given id.
pub open spec fn count_counters(acts: Seq<ProposalActionView>, pid: Seq<char>) -> int
    decreases acts.len(),
{
    if acts.len() == 0 {
        0int
    } else {
        count_counters(acts.drop_last(), pid) + match acts.last() {
            ProposalActionView::Counter { proposal_id, .. } => if proposal_id == pid {
                1int
            } else {
                0int
            },
            ProposalActionView::Candidate => 0int,
        }
    }
}

proof fn lemma_count_counters_absent(ps: Seq<Proposal>, d: Demand, pid: Seq<char>)
    requires
        forall|j: int| 0 <= j < ps.len() ==> (#[trigger] ps[j].proposal_id)@ != pid,
    ensures
        count_counters(route_all(ps, d), pid) == 0,
    decreases ps.len(),
{
    if ps.len() == 0 {
    } else {
        assert(route_all(ps, d).drop_last() =~= route_all(ps.drop_last(), d));
        assert(route_all(ps, d).last() == route_spec(ps[ps.len() - 1], d));
        lemma_count_counters_absent(ps.drop_last(), d, pid);
    }
}

/// Law: over any run of proposals with distinct ids, every proposal lacking
/// a previous-proposal id receives exactly one counter-proposal — which
/// carries the original demand's properties and constraints — and every
/// proposal carrying a previous-proposal id is never countered.
pub proof fn lemma_counter_policy(ps: Seq<Proposal>, d: Demand)
    requires
        forall|i: int, j: int|
            0 <= i < j < ps.len() ==> (#[trigger] ps[i].proposal_id)@ != (
            #[trigger] ps[j].proposal_id)@,
    ensures
        forall|i: int|
            0 <= i < ps.len() ==> count_counters(route_all(ps, d), (#[trigger] ps[i].proposal_id)@)
                == if ps[i].prev_proposal_id is None {
                1int
            } else {
                0int
            },
        forall|i: int|
            0 <= i < ps.len() && (#[trigger] ps[i].prev_proposal_id) is None ==> (route_all(
                ps,
                d,
            )[i] matches ProposalActionView::Counter { proposal_id, properties, constraints } && {
                &&& proposal_id == ps[i].proposal_id@
                &&& properties == d.properties@
                &&& constraints == d.constraints@
            }),
    decreases ps.len(),
{
    if ps.len() == 0 {
    } else {
        let head = ps.drop_last();
        let last = ps.last();
        assert forall|a: int, b: int| 0 <= a < b < head.len() implies (#[trigger] head[a].proposal_id)@
            != (#[trigger] head[b].proposal_id)@ by {
            assert(head[a] == ps[a]);
            assert(head[b] == ps[b]);
        }
        lemma_counter_policy(head, d);
        assert(route_all(ps, d).drop_last() =~= route_all(head, d));
        assert(route_all(ps, d).last() == route_spec(last, d));
        assert forall|i: int| 0 <= i < ps.len() implies count_counters(
            route_all(ps, d),
            (#[trigger] ps[i].proposal_id)@,
        ) == if ps[i].prev_proposal_id is None {
            1int
        } else {
            0int
        } by {
            if i < ps.len() - 1 {
                assert(head[i] == ps[i]);
                assert(count_counters(route_all(head, d), (head[i].proposal_id)@)
                    == if head[i].prev_proposal_id is None {
                    1int
                } else {
                    0int
                });
                assert(ps[i].proposal_id@ != last.proposal_id@);
            } else {
                assert forall|j: int| 0 <= j < head.len() implies (#[trigger] head[j].proposal_id)@
                    != last.proposal_id@ by {
                    assert(ps[j].proposal_id@ != ps[ps.len() - 1].proposal_id@);
                }
                lemma_count_counters_absent(head, d, last.proposal_id@);
            }
        }
    }
}

/// The two phases of the externally driven selection loop.
#[derive(Clone, Copy, PartialEq, Eq, Structural, Debug)]
pub enum NegotiationPhase {
    Collecting,
    Selecting,
}

/// The selection threshold: enough candidates have gathered either shortly
/// after the start, with a margin over the target, or after a longer wait,
/// with the bare target.  The margin constants are negotiation policy.
pub open spec fn selection_ready(candidates: int, target: int, elapsed_secs: int) -> bool {
    (elapsed_secs > 5 && candidates >= 13 * target / 10 + 2) || (elapsed_secs > 30 && candidates
        >= target)
}

/// The candidate collection and selection machine driving one subscription:
/// counters initial proposals while collecting, pools responses, and hands
/// out the first `target` candidates once the threshold is met.
pub struct NegotiationEngine {
    pub phase: NegotiationPhase,
    pub candidates: Vec<Proposal>,
    pub target: usize,
    pub demand: Demand,
}

impl NegotiationEngine {
    pub fn new(target: usize, demand: Demand) -> (r: NegotiationEngine)
        ensures
            r.phase is Collecting,
            r.candidates@ =~= Seq::<Proposal>::empty(),
            r.target == target,
            r.demand == demand,
    {
        NegotiationEngine { phase: NegotiationPhase::Collecting, candidates: Vec::new(), target, demand }
    }

    /// Handles one incoming proposal.  An initial proposal is countered with
    /// the original demand only while collecting and is never pooled; a
    /// response joins the candidate pool and is never countered.
    pub fn handle_proposal(&mut self, proposal: Proposal) -> (a: Option<ProposalAction>)
        ensures
            final(self).phase == old(self).phase,
            final(self).target == old(self).target,
            final(self).demand == old(self).demand,
            proposal.prev_proposal_id is None && old(self).phase is Collecting ==> {
                &&& a matches Some(act) && act@ == route_spec(proposal, old(self).demand)
                &&& final(self).candidates@ == old(self).candidates@
            },
            proposal.prev_proposal_id is None && old(self).phase is Selecting ==> {
                &&& a is None
                &&& final(self).candidates@ == old(self).candidates@
            },
            proposal.prev_proposal_id is Some ==> {
                &&& a is None
                &&& final(self).candidates@ == old(self).candidates@.push(proposal)
            },
    {
        if proposal.is_response() {
            self.candidates.push(proposal);
            None
        } else {
            match self.phase {
                NegotiationPhase::Collecting => Some(route_proposal(&proposal, &self.demand)),
                NegotiationPhase::Selecting => None,
            }
        }
    }

    /// Whether the selection threshold is met.
    pub fn selection_ready(&self, elapsed_secs: u64) -> (r: bool)
        ensures
            r == selection_ready(
                self.candidates@.len() as int,
                self.target as int,
                elapsed_secs as int,
            ),
    {
        let n = self.candidates.len() as u128;
        let threshold = 13u128 * (self.target as u128) / 10u128 + 2u128;
        (elapsed_secs > 5 && n >= threshold) || (elapsed_secs > 30 && self.candidates.len()
            >= self.target)
    }

    /// Enters the selecting phase; new initial proposals are no longer
    /// countered until collection resumes.
    pub fn start_selection(&mut self)
        ensures
            final(self).phase is Selecting,
            final(self).candidates == old(self).candidates,
            final(self).target == old(self).target,
            final(self).demand == old(self).demand,
    {
        self.phase = NegotiationPhase::Selecting;
    }

    /// Takes the first `target` candidates for independent agreement
    /// negotiation, discards the rest, and resumes collecting.
    pub fn take_selected(&mut self) -> (r: Vec<Proposal>)
        requires
            old(self).candidates@.len() >= old(self).target,
        ensures
            r@ == old(self).candidates@.take(old(self).target as int),
            final(self).candidates@ =~= Seq::<Proposal>::empty(),
            final(self).phase is Collecting,
            final(self).target == old(self).target,
            final(self).demand == old(self).demand,
    {
        let mut selected: Vec<Proposal> = Vec::new();
        core::mem::swap(&mut selected, &mut self.candidates);
        selected.truncate(self.target);
        self.phase = NegotiationPhase::Collecting;
        selected
    }
}

/// Lifecycle of an agreement.  It only moves forward: proposed, then
/// confirmed by us, then approved by the provider (usable) or rejected, and
/// finally terminated.
#[derive(Clone, Copy, PartialEq, Eq, Structural, Debug)]
pub enum AgreementState {
    Proposed,
    Confirmed,
    Approved,
    Rejected,
    Terminated,
}

/// How far along its lifecycle an agreement stands; transitions only ever
/// increase it.
pub open spec fn state_rank(s: AgreementState) -> int {
    match s {
        AgreementState::Proposed => 0,
        AgreementState::Confirmed => 1,
        AgreementState::Approved => 2,
        AgreementState::Rejected => 2,
        AgreementState::Terminated => 3,
    }
}

/// One agreement under negotiation or in force.
pub struct Agreement {
    pub agreement_id: String,
    pub state: AgreementState,
}

impl Agreement {
    pub fn new(agreement_id: String) -> (r: Agreement)
        ensures
            r.agreement_id == agreement_id,
            r.state is Proposed,
    {
        Agreement { agreement_id, state: AgreementState::Proposed }
    }

    pub fn id(&self) -> (r: &str)
        ensures
            r@ == self.agreement_id@,
    {
        self.agreement_id.as_str()
    }

    /// Confirms the proposed agreement towards the provider.
    pub fn confirm(&mut self)
        requires
            old(self).state is Proposed,
        ensures
            final(self).agreement_id == old(self).agreement_id,
            final(self).state is Confirmed,
            state_rank(final(self).state) > state_rank(old(self).state),
    {
        self.state = AgreementState::Confirmed;
    }

    /// Records the provider's approval: the agreement becomes usable.
    pub fn approve(&mut self)
        requires
            old(self).state is Confirmed,
        ensures
            final(self).agreement_id == old(self).agreement_id,
            final(self).state is Approved,
            state_rank(final(self).state) > state_rank(old(self).state),
    {
        self.state = AgreementState::Approved;
    }

    /// Records the provider's rejection or an approval timeout; this
    /// candidate is abandoned, its siblings are unaffected.
    pub fn reject(&mut self)
        requires
            old(self).state is Confirmed,
        ensures
            final(self).agreement_id == old(self).agreement_id,
            final(self).state is Rejected,
            state_rank(final(self).state) > state_rank(old(self).state),
    {
        self.state = AgreementState::Rejected;
    }

    /// Terminates the agreement; deferred cleanup ends here.
    pub fn terminate(&mut self)
        requires
            state_rank(old(self).state) < 3,
        ensures
            final(self).agreement_id == old(self).agreement_id,
            final(self).state is Terminated,
            state_rank(final(self).state) > state_rank(old(self).state),
    {
        self.state = AgreementState::Terminated;
    }
}

/// One entry of the agreement event feed.
#[derive(Clone, Copy, PartialEq, Eq, Structural, Debug)]
pub enum AgreementEventType {
    Approved,
    Terminated,
    Other,
}

pub struct AgreementEvent {
    pub agreement_id: String,
    pub event_type: AgreementEventType,
    pub event_date: i64,
}

/// The ids of the agreements an event feed reports approved, in feed order,
/// terminations ignored.
pub open spec fn approved_ids(events: Seq<AgreementEvent>) -> Seq<String>
    decreases events.len(),
{
    if events.len() == 0 {
        Seq::empty()
    } else {
        let rest = approved_ids(events.drop_last());
        if events.last().event_type is Approved {
            rest.push(events.last().agreement_id)
        } else {
            rest
        }
    }
}

/// Lists every agreement an event feed reports approved.
pub fn list_agreements(events: &Vec<AgreementEvent>) -> (r: Vec<String>)
    ensures
        r@ == approved_ids(events@),
{
    let mut r: Vec<String> = Vec::new();
    let mut i: usize = 0;
    while i < events.len()
        invariant
            i <= events@.len(),
            r@ == approved_ids(events@.take(i as int)),
        decreases events@.len() - i,
    {
        proof {
            assert(events@.take(i + 1).drop_last() =~= events@.take(i as int));
            assert(events@.take(i + 1).last() == events@[i as int]);
        }
        match events[i].event_type {
            AgreementEventType::Approved => {
                r.push(events[i].agreement_id.clone());
                proof {
                    assert(r@ =~= approved_ids(events@.take(i + 1)));
                }
            },
            _ => {},
        }
        i = i + 1;
    }
    proof {
        assert(events@.take(events@.len() as int) =~= events@);
    }
    r
}

/// Whether a set of ids already holds the given one.
pub open spec fn contains_id(s: Seq<String>, id: Seq<char>) -> bool {
    exists|i: int| 0 <= i < s.len() && (#[trigger] s[i])@ == id
}

/// The set of ids with every occurrence of the given one taken out.
pub open spec fn remove_id(s: Seq<String>, id: Seq<char>) -> Seq<String>
    decreases s.len(),
{
    if s.len() == 0 {
        Seq::empty()
    } else {
        let rest = remove_id(s.drop_last(), id);
        if s.last()@ == id {
            rest
        } else {
            rest.push(s.last())
        }
    }
}

/// Whether a list of ids holds each id at most once.
pub open spec fn unique_ids(s: Seq<String>) -> bool {
    forall|i: int, j: int| 0 <= i < j < s.len() ==> (#[trigger] s[i])@ != (#[trigger] s[j])@
}

/// Taking an id out keeps the list a set: what remains is still unique,
/// still drawn from the original, and free of the removed id.
proof fn lemma_remove_id_unique(s: Seq<String>, id: Seq<char>)
    requires
        unique_ids(s),
    ensures
        unique_ids(remove_id(s, id)),
        forall|x: Seq<char>| contains_id(remove_id(s, id), x) ==> contains_id(s, x),
        !contains_id(remove_id(s, id), id),
    decreases s.len(),
{
    if s.len() == 0 {
    } else {
        let head = s.drop_last();
        assert(unique_ids(head));
        lemma_remove_id_unique(head, id);
        let rest = remove_id(head, id);
        assert forall|x: Seq<char>| contains_id(rest, x) implies contains_id(s, x) by {
            assert(contains_id(head, x));
            let w = choose|w: int| 0 <= w < head.len() && (#[trigger] head[w])@ == x;
            assert(s[w]@ == x);
        }
        if s.last()@ == id {
        } else {
            let out = rest.push(s.last());
            assert forall|i: int, j: int| 0 <= i < j < out.len() implies (#[trigger] out[i])@ != (
            #[trigger] out[j])@ by {
                if j == out.len() - 1 {
                    if out[i]@ == s.last()@ {
                        assert(contains_id(rest, s.last()@));
                        assert(contains_id(head, s.last()@));
                        let w = choose|w: int|
                            0 <= w < head.len() && (#[trigger] head[w])@ == s.last()@;
                        assert(s[w]@ == s[s.len() - 1]@);
                    }
                }
            }
            assert forall|x: Seq<char>| contains_id(out, x) implies contains_id(s, x) by {
                let w = choose|w: int| 0 <= w < out.len() && (#[trigger] out[w])@ == x;
                if w < rest.len() {
                    assert(contains_id(rest, x));
                } else {
                    assert(s[s.len() - 1]@ == x);
                }
            }
            if contains_id(out, id) {
                let w = choose|w: int| 0 <= w < out.len() && (#[trigger] out[w])@ == id;
                assert(w < rest.len());
                assert(contains_id(rest, id));
            }
        }
    }
}

/// Law of the set fold: the active-agreement list holds each agreement id
/// at most once, as the set it replaces did.
pub proof fn lemma_active_ids_unique(events: Seq<AgreementEvent>)
    ensures
        unique_ids(active_ids(events)),
    decreases events.len(),
{
    if events.len() == 0 {
    } else {
        let head = events.drop_last();
        lemma_active_ids_unique(head);
        let rest = active_ids(head);
        let last = events.last();
        match last.event_type {
            AgreementEventType::Approved => {
                if contains_id(rest, last.agreement_id@) {
                } else {
                    let out = rest.push(last.agreement_id);
                    assert forall|i: int, j: int| 0 <= i < j < out.len() implies (
                    #[trigger] out[i])@ != (#[trigger] out[j])@ by {
                        if j == out.len() - 1 {
                            if out[i]@ == last.agreement_id@ {
                                assert(contains_id(rest, last.agreement_id@));
                            }
                        }
                    }
                }
            },
            AgreementEventType::Terminated => {
                lemma_remove_id_unique(rest, last.agreement_id@);
            },
            AgreementEventType::Other => {},
        }
    }
}

/// The agreements still in force after an event feed: approved and not
/// terminated since, each held once, in order of first approval.
pub open spec fn active_ids(events: Seq<AgreementEvent>) -> Seq<String>
    decreases events.len(),
{
    if events.len() == 0 {
        Seq::empty()
    } else {
        let rest = active_ids(events.drop_last());
        let last = events.last();
        match last.event_type {
            AgreementEventType::Approved => if contains_id(rest, last.agreement_id@) {
                rest
            } else {
                rest.push(last.agreement_id)
            },
            AgreementEventType::Terminated => remove_id(rest, last.agreement_id@),
            AgreementEventType::Other => rest,
        }
    }
}

/// Takes every copy of an id out of a list of ids.
fn remove_all_ids(v: Vec<String>, id: &String) -> (r: Vec<String>)
    ensures
        r@ == remove_id(v@, id@),
{
    let ghost all = v@;
    let mut r: Vec<String> = Vec::new();
    let mut i: usize = 0;
    while i < v.len()
        invariant
            i <= all.len(),
            all == v@,
            r@ == remove_id(all.take(i as int), id@),
        decreases all.len() - i,
    {
        proof {
            assert(all.take(i + 1).drop_last() =~= all.take(i as int));
            assert(all.take(i + 1).last() == all[i as int]);
        }
        if !(v[i] == *id) {
            r.push(v[i].clone());
            proof {
                assert(r@ =~= remove_id(all.take(i + 1), id@));
            }
        }
        i = i + 1;
    }
    proof {
        assert(all.take(all.len() as int) =~= all);
    }
    r
}

/// Lists the agreements still in force after an event feed: approved, not
/// terminated since.
pub fn list_active_agreements(events: &Vec<AgreementEvent>) -> (r: Vec<String>)
    ensures
        r@ == active_ids(events@),
        unique_ids(r@),
{
    proof {
        lemma_active_ids_unique(events@);
    }
    let ghost all = events@;
    let mut r: Vec<String> = Vec::new();
    let mut i: usize = 0;
    while i < events.len()
        invariant
            i <= all.len(),
            all == events@,
            r@ == active_ids(all.take(i as int)),
        decreases all.len() - i,
    {
        proof {
            assert(all.take(i + 1).drop_last() =~= all.take(i as int));
            assert(all.take(i + 1).last() == all[i as int]);
        }
        let ghost before = r@;
        match events[i].event_type {
            AgreementEventType::Approved => {
                let mut found = false;
                let mut k: usize = 0;
                while k < r.len()
                    invariant
                        k <= r@.len(),
                        r@ == before,
                        found == exists|w: int| 0 <= w < k && (#[trigger] before[w])@ == events@[i as int].agreement_id@,
                        i < events@.len(),
                        all == events@,
                    decreases r@.len() - k,
                {
                    if r[k] == events[i].agreement_id {
                        found = true;
                        proof {
                            assert(before[k as int]@ == events@[i as int].agreement_id@);
                        }
                    }
                    k = k + 1;
                }
                if !found {
                    r.push(events[i].agreement_id.clone());
                    proof {
                        assert(!contains_id(before, all[i as int].agreement_id@));
                        assert(r@ =~= active_ids(all.take(i + 1)));
                    }
                } else {
                    proof {
                        assert(contains_id(before, all[i as int].agreement_id@));
                    }
                }
            },
            AgreementEventType::Terminated => {
                let mut taken: Vec<String> = Vec::new();
                core::mem::swap(&mut taken, &mut r);
                r = remove_all_ids(taken, &events[i].agreement_id);
            },
            AgreementEventType::Other => {},
        }
        i = i + 1;
    }
    proof {
        assert(all.take(all.len() as int) =~= all);
    }
    r
}

/// The time of the last event of a page, which pagination resumes from; an
/// empty page ends the listing.
pub fn last_event_date(events: &Vec<AgreementEvent>) -> (r: Option<i64>)
    ensures
        events@.len() == 0 ==> r is None,
        events@.len() > 0 ==> r == Some(events@.last().event_date),
{
    if events.len() > 0 {
        Some(events[events.len() - 1].event_date)
    } else {
        None
    }
}

} // verus!
