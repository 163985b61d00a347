//! Batch command execution: commands, per-command results, and the
//! low-water-mark state that turns polled results into an exactly-once,
//! strictly index-ascending event sequence.
//!
//! One `exec` call submits an ordered command script and yields a
//! `BatchState` carrying the server-assigned batch id and the exact command
//! vector, which is needed to map result indices back to commands.  Each
//! poll for results at or above the low-water-mark may return zero or more
//! newly-indexed results; results below the mark are filtered out, so an
//! index is delivered at most once even when the server repeats it across
//! polls, and the mark then advances to one past the highest index seen.

use vstd::prelude::*;
use vstd::seq_lib::*;

verus! {

broadcast use vstd::seq_lib::group_seq_properties;

/// Model of one command of an execution script.
#[derive(Debug)]
pub enum ExeCommand {
    Deploy,
    Start { args: Vec<String> },
    Run { entry_point: String, args: Vec<String> },
    Transfer { from: String, to: String },
    Terminate,
}

/// Mathematical value of an `ExeCommand`: every string replaced by its
/// character sequence.
pub enum ExeCommandView {
    Deploy,
    Start { args: Seq<Seq<char>> },
    Run { entry_point: Seq<char>, args: Seq<Seq<char>> },
    Transfer { from: Seq<char>, to: Seq<char> },
    Terminate,
}

impl View for ExeCommand {
    type V = ExeCommandView;

    open spec fn view(&self) -> ExeCommandView {
        match self {
            ExeCommand::Deploy => ExeCommandView::Deploy,
            ExeCommand::Start { args } => ExeCommandView::Start { args: args.deep_view() },
            ExeCommand::Run { entry_point, args } => ExeCommandView::Run {
                entry_point: entry_point@,
                args: args.deep_view(),
            },
            ExeCommand::Transfer { from, to } => ExeCommandView::Transfer {
                from: from@,
                to: to@,
            },
            ExeCommand::Terminate => ExeCommandView::Terminate,
        }
    }
}

impl DeepView for ExeCommand {
    type V = ExeCommandView;

    open spec fn deep_view(&self) -> ExeCommandView {
        self.view()
    }
}

proof fn lemma_cloned_string_seq(a: Seq<String>, b: Seq<String>)
    requires
        a.len() == b.len(),
        forall|i: int| #![all_triggers] 0 <= i < a.len() ==> cloned::<String>(a[i], b[i]),
    ensures
        a == b,
{
    assert forall|i: int| 0 <= i < a.len() implies a[i] == b[i] by {
        assert(cloned::<String>(a[i], b[i]));
    }
    assert(a =~= b);
}

fn clone_string_vec(v: &Vec<String>) -> (r: Vec<String>)
    ensures
        r@ == v@,
{
    let r = v.clone();
    proof {
        lemma_cloned_string_seq(v@, r@);
    }
    r
}

impl Clone for ExeCommand {
    fn clone(&self) -> (r: Self)
        ensures
            r@ == self@,
    {
        match self {
            ExeCommand::Deploy => ExeCommand::Deploy,
            ExeCommand::Start { args } => ExeCommand::Start { args: clone_string_vec(args) },
            ExeCommand::Run { entry_point, args } => ExeCommand::Run {
                entry_point: entry_point.clone(),
                args: clone_string_vec(args),
            },
            ExeCommand::Transfer { from, to } => ExeCommand::Transfer {
                from: from.clone(),
                to: to.clone(),
            },
            ExeCommand::Terminate => ExeCommand::Terminate,
        }
    }
}

/// Whether one command step succeeded or failed on the provider.
#[derive(Clone, Copy, PartialEq, Eq, Structural, Debug)]
pub enum StepStatus {
    Succeeded,
    Failed,
}

/// One indexed result of a running batch, as polled from the server.
#[derive(Debug)]
pub struct CommandStepResult {
    pub index: usize,
    pub status: StepStatus,
    pub message: Option<String>,
    pub is_batch_finished: bool,
}

/// One event delivered to the caller, derived one-for-one from a
/// per-command result.
#[derive(Debug)]
pub enum Event {
    StepSuccess { command: ExeCommand, output: String },
    StepFailed { message: String },
}

/// Mathematical value of an `Event`.
pub enum EventView {
    StepSuccess { command: ExeCommandView, output: Seq<char> },
    StepFailed { message: Seq<char> },
}

impl View for Event {
    type V = EventView;

    open spec fn view(&self) -> EventView {
        match self {
            Event::StepSuccess { command, output } => EventView::StepSuccess {
                command: command@,
                output: output@,
            },
            Event::StepFailed { message } => EventView::StepFailed { message: message@ },
        }
    }
}

/// A result's message, with a missing message read as empty text.
pub open spec fn message_view(m: Option<String>) -> Seq<char> {
    match m {
        Some(s) => s@,
        None => Seq::empty(),
    }
}

/// The event a result maps to: success carries the matched original command
/// and the output, failure carries the message.
pub open spec fn event_view_of(r: CommandStepResult, cmds: Seq<ExeCommand>) -> EventView
    recommends
        r.index < cmds.len(),
{
    match r.status {
        StepStatus::Succeeded => EventView::StepSuccess {
            command: cmds[r.index as int]@,
            output: message_view(r.message),
        },
        StepStatus::Failed => EventView::StepFailed { message: message_view(r.message) },
    }
}

/// A result whose index cannot be resolved against the submitted command
/// vector: a hard, unrecoverable error for the batch.
#[derive(Clone, Copy, PartialEq, Eq, Structural, Debug)]
pub enum BatchError {
    InvalidCommandIndex { index: usize },
}

/// The delivery filter: results at or above the low-water-mark pass.
pub open spec fn above_mark(lwm: int) -> spec_fn(CommandStepResult) -> bool {
    |r: CommandStepResult| r.index >= lwm
}

/// The results of one poll that clear the low-water-mark, in poll order.
pub open spec fn accepted(results: Seq<CommandStepResult>, lwm: int) -> Seq<CommandStepResult> {
    results.filter(above_mark(lwm))
}

/// The low-water-mark after one poll: one past the highest index seen, and
/// never moving backwards.
pub open spec fn next_lwm(results: Seq<CommandStepResult>, lwm: int) -> int
    decreases results.len(),
{
    if results.len() == 0 {
        lwm
    } else {
        let rest = next_lwm(results.drop_last(), lwm);
        if results.last().index + 1 > rest {
            results.last().index + 1
        } else {
            rest
        }
    }
}

pub open spec fn any_finished(results: Seq<CommandStepResult>) -> bool {
    exists|i: int| 0 <= i < results.len() && results[i].is_batch_finished
}

/// Well-formedness of one poll response: the server reports results in
/// strictly ascending index order within a single response.
pub open spec fn indices_strictly_increasing(results: Seq<CommandStepResult>) -> bool {
    forall|i: int, j: int|
        0 <= i < j < results.len() ==> results[i].index < results[j].index
}

/// The index of the first accepted result that cannot be resolved against a
/// command vector of length `ncmds`, if any.
pub open spec fn find_invalid(acc: Seq<CommandStepResult>, ncmds: int) -> Option<usize>
    decreases acc.len(),
{
    if acc.len() == 0 {
        None
    } else if acc.first().index >= ncmds {
        Some(acc.first().index)
    } else {
        find_invalid(acc.drop_first(), ncmds)
    }
}

/// The accepted results up to, and excluding, the first one that cannot be
/// resolved: the results whose events are still delivered.
pub open spec fn valid_prefix(acc: Seq<CommandStepResult>, ncmds: int) -> Seq<CommandStepResult>
    decreases acc.len(),
{
    if acc.len() == 0 {
        Seq::empty()
    } else if acc.first().index < ncmds {
        seq![acc.first()] + valid_prefix(acc.drop_first(), ncmds)
    } else {
        Seq::empty()
    }
}

/// When every accepted result resolves, the valid prefix is the whole run.
proof fn lemma_valid_prefix_clean(acc: Seq<CommandStepResult>, ncmds: int)
    requires
        find_invalid(acc, ncmds) is None,
    ensures
        valid_prefix(acc, ncmds) == acc,
    decreases acc.len(),
{
    if acc.len() == 0 {
        assert(valid_prefix(acc, ncmds) =~= acc);
    } else {
        lemma_valid_prefix_clean(acc.drop_first(), ncmds);
        assert(valid_prefix(acc, ncmds) =~= seq![acc.first()] + acc.drop_first());
        assert(seq![acc.first()] + acc.drop_first() =~= acc);
    }
}

/// A clean run followed by an unresolvable result is cut exactly at the
/// unresolvable one.
proof fn lemma_valid_prefix_cut(a: Seq<CommandStepResult>, b: Seq<CommandStepResult>, ncmds: int)
    requires
        find_invalid(a, ncmds) is None,
        b.len() > 0,
        b.first().index >= ncmds,
    ensures
        valid_prefix(a + b, ncmds) == a,
    decreases a.len(),
{
    if a.len() == 0 {
        assert(a + b =~= b);
        assert(valid_prefix(a + b, ncmds) =~= a);
    } else {
        assert((a + b).first() == a.first());
        assert((a + b).drop_first() =~= a.drop_first() + b);
        lemma_valid_prefix_cut(a.drop_first(), b, ncmds);
        assert(valid_prefix(a + b, ncmds) =~= seq![a.first()] + a.drop_first());
        assert(seq![a.first()] + a.drop_first() =~= a);
    }
}

/// One running batch: the server-assigned id, the exact command vector that
/// was submitted, the low-water-mark of result delivery, and whether a
/// result flagged "batch finished" has been observed.
pub struct BatchState {
    pub batch_id: String,
    pub commands: Vec<ExeCommand>,
    pub low_water_mark: usize,
    pub finished: bool,
}

impl BatchState {
    pub fn new(batch_id: String, commands: Vec<ExeCommand>) -> (r: BatchState)
        ensures
            r.batch_id == batch_id,
            r.commands == commands,
            r.low_water_mark == 0,
            !r.finished,
    {
        BatchState { batch_id, commands, low_water_mark: 0, finished: false }
    }

    pub fn id(&self) -> (r: &String)
        ensures
            r == &self.batch_id,
    {
        &self.batch_id
    }

    /// The exact submitted command vector.
    pub fn commands(&self) -> (r: Vec<ExeCommand>)
        ensures
            r@.len() == self.commands@.len(),
            forall|k: int| 0 <= k < r@.len() ==> (#[trigger] r@[k])@ == self.commands@[k]@,
    {
        let mut r: Vec<ExeCommand> = Vec::new();
        let mut i: usize = 0;
        while i < self.commands.len()
            invariant
                i <= self.commands@.len(),
                r@.len() == i,
                forall|k: int| 0 <= k < i ==> (#[trigger] r@[k])@ == self.commands@[k]@,
            decreases self.commands@.len() - i,
        {
            r.push((&self.commands[i]).clone());
            i = i + 1;
        }
        r
    }

    /// Ingests one poll response.  Results below the low-water-mark are
    /// dropped, so each index is delivered at most once across polls; the
    /// mark advances to one past the highest index seen; the finished flag
    /// latches once any result carries it.  Each accepted result maps to its
    /// event; an accepted index out of range of the command vector is a hard
    /// error naming the first such index, with the events before it still
    /// delivered.
    pub fn ingest_poll(&mut self, results: &Vec<CommandStepResult>) -> (r: (
        Vec<Event>,
        Option<BatchError>,
    ))
        requires
            indices_strictly_increasing(results@),
            forall|i: int| 0 <= i < results@.len() ==> (#[trigger] results@[i].index) < usize::MAX,
        ensures
            final(self).batch_id == old(self).batch_id,
            final(self).commands == old(self).commands,
            final(self).low_water_mark == next_lwm(results@, old(self).low_water_mark as int),
            final(self).finished == (old(self).finished || any_finished(results@)),
            ({
                let acc = accepted(results@, old(self).low_water_mark as int);
                let ncmds = old(self).commands@.len() as int;
                let good = valid_prefix(acc, ncmds);
                &&& r.0@.len() == good.len()
                &&& forall|k: int|
                    0 <= k < good.len() ==> (#[trigger] r.0@[k])@ == event_view_of(
                        good[k],
                        old(self).commands@,
                    )
                &&& match r.1 {
                    None => find_invalid(acc, ncmds) is None,
                    Some(BatchError::InvalidCommandIndex { index }) => find_invalid(acc, ncmds)
                        == Some(index),
                }
            }),
    {
        let lwm_before: usize = self.low_water_mark;
        let ghost lwm0 = self.low_water_mark as int;
        let ghost cmds = self.commands@;
        let ghost all = results@;

        // First pass: advance the low-water-mark and the finished flag over
        // the whole response, as the server reported it.
        let mut new_lwm: usize = self.low_water_mark;
        let mut finished: bool = self.finished;
        let mut i: usize = 0;
        while i < results.len()
            invariant
                i <= all.len(),
                all == results@,
                forall|k: int| 0 <= k < all.len() ==> (#[trigger] all[k].index) < usize::MAX,
                new_lwm as int == next_lwm(all.take(i as int), lwm0),
                lwm0 <= new_lwm as int,
                finished == (old(self).finished || any_finished(all.take(i as int))),
                self == old(self),
            decreases all.len() - i,
        {
            let res = &results[i];
            proof {
                assert(all.take(i + 1).drop_last() =~= all.take(i as int));
                assert(all.take(i + 1).last() == all[i as int]);
                if res.is_batch_finished {
                    assert(any_finished(all.take(i + 1)));
                }
                if any_finished(all.take(i as int)) {
                    let w = choose|k: int|
                        0 <= k < all.take(i as int).len() && #[trigger] all.take(
                            i as int,
                        )[k].is_batch_finished;
                    assert(all.take(i + 1)[w].is_batch_finished);
                }
                if any_finished(all.take(i + 1)) && !res.is_batch_finished {
                    let w = choose|k: int|
                        0 <= k < all.take(i + 1).len() && #[trigger] all.take(
                            i + 1,
                        )[k].is_batch_finished;
                    assert(all.take(i as int)[w].is_batch_finished);
                }
            }
            if res.index >= new_lwm {
                new_lwm = res.index + 1;
            }
            if res.is_batch_finished {
                finished = true;
            }
            i = i + 1;
        }
        proof {
            assert(all.take(all.len() as int) =~= all);
        }
        self.low_water_mark = new_lwm;
        self.finished = finished;

        // Second pass: map the accepted results to events, in poll order.
        let ghost acc = accepted(all, lwm0);
        let mut events: Vec<Event> = Vec::new();
        let mut i: usize = 0;
        while i < results.len()
            invariant
                i <= all.len(),
                all == results@,
                cmds == self.commands@,
                ({
                    let acc_i = accepted(all.take(i as int), lwm0);
                    &&& find_invalid(acc_i, cmds.len() as int) is None
                    &&& events@.len() == acc_i.len()
                    &&& forall|k: int|
                        0 <= k < acc_i.len() ==> (#[trigger] events@[k])@ == event_view_of(
                            acc_i[k],
                            cmds,
                        )
                    &&& forall|k: int|
                        0 <= k < acc_i.len() ==> (#[trigger] acc_i[k].index) < cmds.len()
                }),
                indices_strictly_increasing(all),
                lwm0 == lwm_before as int,
                lwm0 == old(self).low_water_mark as int,
                cmds == old(self).commands@,
                self.batch_id == old(self).batch_id,
                self.commands == old(self).commands,
                self.low_water_mark as int == next_lwm(all, lwm0),
                self.finished == (old(self).finished || any_finished(all)),
            decreases all.len() - i,
        {
            let res = &results[i];
            let ghost acc_i = accepted(all.take(i as int), lwm0);
            proof {
                assert(all.take(i + 1).drop_last() =~= all.take(i as int));
                assert(all.take(i + 1).last() == all[i as int]);
            }
            if res.index >= lwm_before {
                proof {
                    lemma_accepted_snoc(all.take(i + 1), lwm0);
                    assert(accepted(all.take(i + 1), lwm0) == acc_i.push(all[i as int]));
                }
                if res.index < self.commands.len() {
                    let command = (&self.commands[res.index]).clone();
                    let output = match &res.message {
                        Some(m) => m.clone(),
                        None => String::new(),
                    };
                    let event = match res.status {
                        StepStatus::Succeeded => Event::StepSuccess { command, output },
                        StepStatus::Failed => Event::StepFailed { message: output },
                    };
                    events.push(event);
                    proof {
                        let acc_n = accepted(all.take(i + 1), lwm0);
                        lemma_find_invalid_push_valid(acc_i, all[i as int], cmds.len() as int);
                        assert(events@[acc_i.len() as int]@ == event_view_of(
                            all[i as int],
                            cmds,
                        ));
                    }
                } else {
                    // Hard error: the server answered with an index the
                    // submitted script never had.  The events derived so far
                    // are still handed out.
                    proof {
                        lemma_find_invalid_push_invalid(acc_i, all[i as int], cmds.len() as int);
                        lemma_split_at_accepted(all, lwm0, i + 1);
                        lemma_find_invalid_concat(
                            accepted(all.take(i + 1), lwm0),
                            accepted(all.skip(i + 1), lwm0),
                            cmds.len() as int,
                        );
                        let acc_full = accepted(all, lwm0);
                        let tail = seq![all[i as int]] + accepted(all.skip(i + 1), lwm0);
                        assert(acc_full =~= acc_i + tail);
                        assert(tail.first() == all[i as int]);
                        lemma_valid_prefix_cut(acc_i, tail, cmds.len() as int);
                    }
                    return (events, Some(BatchError::InvalidCommandIndex { index: res.index }));
                }
            } else {
                proof {
                    lemma_accepted_snoc(all.take(i + 1), lwm0);
                    assert(accepted(all.take(i + 1), lwm0) == acc_i);
                }
            }
            i = i + 1;
        }
        proof {
            assert(all.take(all.len() as int) =~= all);
            lemma_valid_prefix_clean(accepted(all, lwm0), cmds.len() as int);
        }
        (events, None)
    }

}

/// `find_invalid` over a well-formed prefix extended by one valid result
/// stays clear.
proof fn lemma_find_invalid_push_valid(acc: Seq<CommandStepResult>, r: CommandStepResult, ncmds: int)
    requires
        find_invalid(acc, ncmds) is None,
        r.index < ncmds,
    ensures
        find_invalid(acc.push(r), ncmds) is None,
    decreases acc.len(),
{
    if acc.len() == 0 {
        assert(acc.push(r).drop_first() =~= Seq::<CommandStepResult>::empty());
    } else {
        assert(acc.push(r).first() == acc.first());
        assert(acc.push(r).drop_first() =~= acc.drop_first().push(r));
        lemma_find_invalid_push_valid(acc.drop_first(), r, ncmds);
    }
}

/// `find_invalid` over a clear prefix extended by one out-of-range result
/// names exactly that result's index.
proof fn lemma_find_invalid_push_invalid(
    acc: Seq<CommandStepResult>,
    r: CommandStepResult,
    ncmds: int,
)
    requires
        find_invalid(acc, ncmds) is None,
        r.index >= ncmds,
    ensures
        find_invalid(acc.push(r), ncmds) == Some(r.index),
    decreases acc.len(),
{
    if acc.len() == 0 {
        assert(acc.push(r).first() == r);
    } else {
        assert(acc.push(r).first() == acc.first());
        assert(acc.push(r).drop_first() =~= acc.drop_first().push(r));
        lemma_find_invalid_push_invalid(acc.drop_first(), r, ncmds);
    }
}

/// `find_invalid` of a concatenation is decided by the left part when the
/// left part already names an index.
proof fn lemma_find_invalid_concat(a: Seq<CommandStepResult>, b: Seq<CommandStepResult>, ncmds: int)
    requires
        find_invalid(a, ncmds) is Some,
    ensures
        find_invalid(a + b, ncmds) == find_invalid(a, ncmds),
    decreases a.len(),
{
    assert(a.len() > 0);
    assert((a + b).first() == a.first());
    if a.first().index >= ncmds {
    } else {
        assert((a + b).drop_first() =~= a.drop_first() + b);
        lemma_find_invalid_concat(a.drop_first(), b, ncmds);
    }
}

/// The accepted results split at a position as the accepted prefix plus the
/// accepted remainder.
proof fn lemma_split_at_accepted(all: Seq<CommandStepResult>, lwm: int, i: int)
    requires
        0 <= i <= all.len(),
    ensures
        accepted(all, lwm) =~= accepted(all.take(i), lwm) + accepted(all.skip(i), lwm),
{
    let pred = above_mark(lwm);
    assert(all =~= all.take(i) + all.skip(i));
    Seq::<CommandStepResult>::filter_distributes_over_add(all.take(i), all.skip(i), pred);
    assert(accepted(all, lwm) =~= (all.take(i) + all.skip(i)).filter(pred));
}

/// The index column of a result sequence.
pub open spec fn indices(s: Seq<CommandStepResult>) -> Seq<int> {
    Seq::new(s.len(), |i: int| s[i].index as int)
}

/// Indices delivered over a whole sequence of polls, with the low-water-mark
/// carried from each poll into the next.
pub open spec fn delivered_indices(polls: Seq<Seq<CommandStepResult>>, lwm: int) -> Seq<int>
    decreases polls.len(),
{
    if polls.len() == 0 {
        Seq::empty()
    } else {
        indices(accepted(polls.first(), lwm)) + delivered_indices(
            polls.drop_first(),
            next_lwm(polls.first(), lwm),
        )
    }
}

pub open spec fn seq_strictly_increasing(s: Seq<int>) -> bool {
    forall|i: int, j: int| 0 <= i < j < s.len() ==> s[i] < s[j]
}

/// Unrolls the delivery filter by one result at the tail of a poll.
proof fn lemma_accepted_snoc(s: Seq<CommandStepResult>, lwm: int)
    requires
        s.len() > 0,
    ensures
        accepted(s, lwm) == if s.last().index >= lwm {
            accepted(s.drop_last(), lwm).push(s.last())
        } else {
            accepted(s.drop_last(), lwm)
        },
{
    reveal_with_fuel(Seq::<_>::filter, 2);
    if s.last().index >= lwm {
        assert(accepted(s, lwm) =~= accepted(s.drop_last(), lwm).push(s.last()));
    } else {
        assert(accepted(s, lwm) =~= accepted(s.drop_last(), lwm));
    }
}

/// Within one poll, the accepted results keep strictly increasing indices,
/// lie at or above the incoming mark and strictly below the outgoing mark,
/// and are all drawn from the poll itself.
proof fn lemma_accepted_bounds(results: Seq<CommandStepResult>, lwm: int)
    requires
        indices_strictly_increasing(results),
    ensures
        ({
            let acc = accepted(results, lwm);
            &&& seq_strictly_increasing(indices(acc))
            &&& forall|k: int| 0 <= k < acc.len() ==> lwm <= (#[trigger] acc[k].index) as int
            &&& forall|k: int|
                0 <= k < acc.len() ==> ((#[trigger] acc[k].index) as int) < next_lwm(results, lwm)
            &&& lwm <= next_lwm(results, lwm)
            &&& forall|k: int|
                0 <= k < acc.len() ==> exists|w: int|
                    0 <= w < results.len() && #[trigger] acc[k] == results[w]
        }),
    decreases results.len(),
{
    if results.len() == 0 {
    } else {
        let head = results.drop_last();
        let last = results.last();
        assert(indices_strictly_increasing(head));
        lemma_accepted_bounds(head, lwm);
        lemma_accepted_snoc(results, lwm);
        let acc_head = accepted(head, lwm);
        let acc = accepted(results, lwm);

        // every accepted element of the shorter poll stands in it somewhere,
        // so its index stays below the last result's index
        assert forall|k: int| 0 <= k < acc_head.len() implies exists|w: int|
            0 <= w < results.len() && #[trigger] acc_head[k] == results[w] by {
            let w = choose|w: int| 0 <= w < head.len() && #[trigger] acc_head[k] == head[w];
            assert(head[w] == results[w]);
            assert(acc_head[k] == results[w]);
        }
        assert forall|k: int| 0 <= k < acc_head.len() implies (((#[trigger] acc_head[k].index)
            as int) < (last.index as int)) by {
            let w = choose|w: int| 0 <= w < head.len() && #[trigger] acc_head[k] == head[w];
            assert(head[w] == results[w]);
            assert(results[w].index < last.index);
        }

        if last.index >= lwm {
            assert(acc == acc_head.push(last));
            assert(indices(acc) =~= indices(acc_head).push(last.index as int));
            assert forall|k: int| 0 <= k < acc.len() implies exists|w: int|
                0 <= w < results.len() && #[trigger] acc[k] == results[w] by {
                if k < acc_head.len() {
                    assert(acc[k] == acc_head[k]);
                } else {
                    assert(acc[k] == results[results.len() - 1]);
                }
            }
        } else {
            assert(acc == acc_head);
        }
    }
}

/// Law: for any sequence of polled batch results, the indices of the events
/// delivered to the caller are strictly increasing with no repeats,
/// regardless of how the results are chunked across polls — provided each
/// single poll response reports its results in strictly ascending index
/// order, as the server interface promises.
pub proof fn lemma_event_indices_strictly_increasing(polls: Seq<Seq<CommandStepResult>>, lwm: int)
    requires
        forall|p: int| 0 <= p < polls.len() ==> indices_strictly_increasing(#[trigger] polls[p]),
    ensures
        seq_strictly_increasing(delivered_indices(polls, lwm)),
        forall|k: int|
            0 <= k < delivered_indices(polls, lwm).len() ==> lwm <= #[trigger] delivered_indices(
                polls,
                lwm,
            )[k],
    decreases polls.len(),
{
    if polls.len() == 0 {
    } else {
        let first = indices(accepted(polls.first(), lwm));
        let lwm1 = next_lwm(polls.first(), lwm);
        lemma_accepted_bounds(polls.first(), lwm);
        assert(forall|p: int|
            0 <= p < polls.drop_first().len() ==> indices_strictly_increasing(
                #[trigger] polls.drop_first()[p],
            ));
        lemma_event_indices_strictly_increasing(polls.drop_first(), lwm1);
        let rest = delivered_indices(polls.drop_first(), lwm1);
        let whole = delivered_indices(polls, lwm);
        assert(whole =~= first + rest);
        assert forall|i: int, j: int| 0 <= i < j < whole.len() implies whole[i] < whole[j] by {
            if j < first.len() {
            } else if i >= first.len() {
                assert(rest[i - first.len()] < rest[j - first.len()]);
            } else {
                assert(whole[i] == first[i]);
                assert(whole[j] == rest[j - first.len()]);
                assert(first[i] < lwm1);
                assert(lwm1 <= rest[j - first.len()]);
            }
        }
    }
}

} // verus!
