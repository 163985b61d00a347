//! Activities: provisioned remote execution contexts bound to one
//! agreement, in a plain and an attested variant sharing one capability
//! set, plus the decisions of the result-polling loops around them.

use vstd::prelude::*;
use crate::batch::{CommandStepResult, Event, StepStatus, message_view};

verus! {

/// The cryptographic proof the attested variant carries.
pub struct Credentials {
    pub evidence: String,
}

/// Which variant an activity runs as: the attested one carries a proof of
/// the execution environment, the plain one carries none.
pub enum ActivityVariant {
    Plain,
    Attested { credentials: Credentials },
}

/// One provisioned execution context, bound to one agreement at creation.
pub struct Activity {
    pub activity_id: String,
    pub variant: ActivityVariant,
}

impl Activity {
    pub fn new(activity_id: String, variant: ActivityVariant) -> (r: Activity)
        ensures
            r.activity_id == activity_id,
            r.variant == variant,
    {
        Activity { activity_id, variant }
    }

    pub fn id(&self) -> (r: &str)
        ensures
            r@ == self.activity_id@,
    {
        self.activity_id.as_str()
    }

    /// The attested variant returns its proof; the plain variant returns
    /// none.
    pub fn credentials(&self) -> (r: Option<&Credentials>)
        ensures
            self.variant is Plain ==> r is None,
            self.variant matches ActivityVariant::Attested { credentials } ==> r == Some(
                &credentials,
            ),
    {
        match &self.variant {
            ActivityVariant::Plain => None,
            ActivityVariant::Attested { credentials } => Some(credentials),
        }
    }
}

/// The message of the first failed step, if any step failed.
pub open spec fn first_failure(events: Seq<Event>) -> Option<String>
    decreases events.len(),
{
    if events.len() == 0 {
        None
    } else {
        match events.first() {
            Event::StepFailed { message } => Some(message),
            Event::StepSuccess { .. } => first_failure(events.drop_first()),
        }
    }
}

/// The outputs of the successful steps, in order.
pub open spec fn outputs_of(events: Seq<Event>) -> Seq<String>
    decreases events.len(),
{
    if events.len() == 0 {
        Seq::empty()
    } else {
        let rest = outputs_of(events.drop_last());
        match events.last() {
            Event::StepSuccess { output, .. } => rest.push(output),
            Event::StepFailed { .. } => rest,
        }
    }
}

/// A clean prefix does not change where the first failure lies.
proof fn lemma_first_failure_skip(events: Seq<Event>, i: int)
    requires
        0 <= i <= events.len(),
        forall|j: int| 0 <= j < i ==> events[j] is StepSuccess,
    ensures
        first_failure(events) == first_failure(events.skip(i)),
    decreases i,
{
    if i == 0 {
        assert(events.skip(0) =~= events);
    } else {
        lemma_first_failure_skip(events, i - 1);
        assert(events.skip(i - 1).first() == events[i - 1]);
        assert(events.skip(i - 1).drop_first() =~= events.skip(i));
    }
}

/// Folds a batch's event run into the command outputs, as the one-shot
/// execute-and-collect call does: every step's output in order, or the
/// message of the first failed step.
pub fn collect_outputs(events: &Vec<Event>) -> (r: Result<Vec<String>, String>)
    ensures
        match r {
            Ok(outs) => {
                &&& first_failure(events@) is None
                &&& outs@ == outputs_of(events@)
            },
            Err(message) => first_failure(events@) == Some(message),
        },
{
    let ghost all = events@;
    let mut outs: Vec<String> = Vec::new();
    let mut i: usize = 0;
    while i < events.len()
        invariant
            i <= all.len(),
            all == events@,
            forall|j: int| 0 <= j < i ==> all[j] is StepSuccess,
            outs@ == outputs_of(all.take(i as int)),
        decreases all.len() - i,
    {
        proof {
            assert(all.take(i + 1).drop_last() =~= all.take(i as int));
            assert(all.take(i + 1).last() == all[i as int]);
        }
        match &events[i] {
            Event::StepSuccess { output, .. } => {
                outs.push(output.clone());
            },
            Event::StepFailed { message } => {
                proof {
                    lemma_first_failure_skip(all, i as int);
                    assert(all.skip(i as int).first() == all[i as int]);
                }
                return Err(message.clone());
            },
        }
        i = i + 1;
    }
    proof {
        assert(all.take(all.len() as int) =~= all);
        lemma_first_failure_skip(all, all.len() as int);
        assert(all.skip(all.len() as int) =~= Seq::<Event>::empty());
    }
    Ok(outs)
}

/// What one poll of a streaming batch's tail says about completion: nothing
/// yet, a clean finish, or the failing step's message.
pub fn finish_outcome(results: &Vec<CommandStepResult>) -> (r: Option<Result<(), String>>)
    ensures
        results@.len() == 0 ==> r is None,
        results@.len() > 0 && !results@.last().is_batch_finished ==> r is None,
        results@.len() > 0 && results@.last().is_batch_finished ==> match results@.last().status {
            StepStatus::Succeeded => r == Some(Result::<(), String>::Ok(())),
            StepStatus::Failed => (r matches Some(res) && res matches Err(m) && m@ == message_view(
                results@.last().message,
            )),
        },
{
    if results.len() == 0 {
        return None;
    }
    let last = &results[results.len() - 1];
    if !last.is_batch_finished {
        return None;
    }
    match last.status {
        StepStatus::Succeeded => Some(Ok(())),
        StepStatus::Failed => {
            let message = match &last.message {
                Some(m) => m.clone(),
                None => String::new(),
            };
            Some(Err(message))
        },
    }
}

/// A failure of one call into the marketplace service, as the polling loops
/// see it.
#[derive(Debug)]
pub enum ApiError {
    /// The request timed out on the transport.
    Timeout,
    /// The service answered with an internal error message.
    Internal { message: String },
    /// Any other protocol failure.
    Other { message: String },
}

/// Whether a failed result poll is retried transparently: transport
/// timeouts are, either reported as such or smuggled inside an internal
/// error; every other error ends the event sequence.
pub fn should_retry_poll(err: &ApiError) -> (r: bool)
    ensures
        r == (err is Timeout || (err matches ApiError::Internal { message } && message@
            == "Timeout"@)),
{
    match err {
        ApiError::Timeout => true,
        ApiError::Internal { message } => {
            let t: String = "Timeout".to_owned();
            *message == t
        },
        ApiError::Other { .. } => false,
    }
}

} // verus!
