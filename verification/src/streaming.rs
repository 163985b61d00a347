//! Streaming result delivery: the push-based event feed of a streaming
//! batch, the side-channel capture step applied to it, and the adapter that
//! mirrors a stream to the standard streams.  The mirroring itself is I/O
//! and lives with the driver.

use vstd::prelude::*;
use crate::codec::{scan, CommandOutput, MessageProcessor};

verus! {

/// What one pushed runtime event carries.
pub enum RuntimeEventKind {
    Started,
    Finished,
    StdOut(CommandOutput),
    StdErr(CommandOutput),
}

/// One event of a streaming batch's push feed.
pub struct RuntimeEvent {
    pub batch_id: String,
    pub index: usize,
    pub timestamp: i64,
    pub kind: RuntimeEventKind,
}

/// Runs one pushed event through the side-channel capture: only standard
/// output passes through the framing codec — completed frame payloads come
/// out on the side, and the event is re-issued with the retained bytes, or
/// swallowed when nothing was retained.  Every other event kind passes
/// through unchanged.
pub fn capture_event(processor: &mut MessageProcessor, event: RuntimeEvent) -> (r: (
    Vec<Vec<u8>>,
    Option<RuntimeEvent>,
))
    ensures
        match event.kind {
            RuntimeEventKind::StdOut(output) => {
                let sr = scan(old(processor).state(), output.bytes());
                &&& final(processor).state() == sr.state
                &&& r.0.deep_view() =~~= sr.msgs
                &&& match r.1 {
                    Some(ev) => {
                        &&& ev.batch_id == event.batch_id
                        &&& ev.index == event.index
                        &&& ev.timestamp == event.timestamp
                        &&& (ev.kind matches RuntimeEventKind::StdOut(rest) && rest.bytes()
                            =~= sr.out)
                        &&& sr.out.len() > 0
                    },
                    None => sr.out.len() == 0,
                }
            },
            _ => {
                &&& final(processor).state() == old(processor).state()
                &&& r.0@ =~= Seq::<Vec<u8>>::empty()
                &&& r.1 == Some(event)
            },
        },
{
    let RuntimeEvent { batch_id, index, timestamp, kind } = event;
    match kind {
        RuntimeEventKind::StdOut(output) => {
            let (msgs, rest) = processor.consume_message(&output);
            match rest {
                Some(retained) => (
                    msgs,
                    Some(
                        RuntimeEvent {
                            batch_id,
                            index,
                            timestamp,
                            kind: RuntimeEventKind::StdOut(retained),
                        },
                    ),
                ),
                None => (msgs, None),
            }
        },
        other => (
            Vec::new(),
            Some(RuntimeEvent { batch_id, index, timestamp, kind: other }),
        ),
    }
}

/// A result stream whose stdout and stderr events are forwarded to our own
/// standard output and error as they pass; no event is consumed.
pub struct ForwardStd<St> {
    stream: St,
}

impl<St> ForwardStd<St> {
    /// The wrapped stream.
    pub closed spec fn inner(&self) -> St {
        self.stream
    }

    pub fn new(stream: St) -> (r: ForwardStd<St>)
        ensures
            r.inner() == stream,
    {
        ForwardStd { stream }
    }

    pub fn get_ref(&self) -> (r: &St)
        ensures
            *r == self.inner(),
    {
        &self.stream
    }

    pub fn into_inner(self) -> (r: St)
        ensures
            r == self.inner(),
    {
        self.stream
    }
}

} // verus!
