use yarapi::activity::{collect_outputs, finish_outcome, should_retry_poll, ApiError};
use yarapi::batch::{
    BatchState, BatchError, CommandStepResult, Event, ExeCommand, StepStatus,
};

fn step(index: usize, ok: bool, message: Option<&str>, finished: bool) -> CommandStepResult {
    CommandStepResult {
        index,
        status: if ok { StepStatus::Succeeded } else { StepStatus::Failed },
        message: message.map(|m| m.to_string()),
        is_batch_finished: finished,
    }
}

fn three_command_batch() -> BatchState {
    let commands = vec![
        ExeCommand::Deploy,
        ExeCommand::Start { args: vec![] },
        ExeCommand::Run { entry_point: "main".to_string(), args: vec![] },
    ];
    BatchState::new("batch-1".to_string(), commands)
}

#[test]
fn overlapping_polls_deliver_each_index_once() {
    // server answers indices [0, 1], then [1, 2 finished]: index 1 arrives
    // twice but is delivered once, and the run ends after the finished flag
    let mut batch = three_command_batch();

    let poll1 = vec![step(0, true, Some("deployed"), false), step(1, true, None, false)];
    let (events1, err1) = batch.ingest_poll(&poll1);
    assert!(err1.is_none());
    assert_eq!(events1.len(), 2);
    assert!(matches!(
        &events1[0],
        Event::StepSuccess { command: ExeCommand::Deploy, output } if output == "deployed"
    ));
    assert!(matches!(
        &events1[1],
        Event::StepSuccess { command: ExeCommand::Start { .. }, output } if output.is_empty()
    ));
    assert!(!batch.finished);
    assert_eq!(batch.low_water_mark, 2);

    let poll2 = vec![step(1, true, None, false), step(2, true, Some("ran"), true)];
    let (events2, err2) = batch.ingest_poll(&poll2);
    assert!(err2.is_none());
    assert_eq!(events2.len(), 1, "index 1 is delivered exactly once");
    assert!(matches!(
        &events2[0],
        Event::StepSuccess { command: ExeCommand::Run { .. }, output } if output == "ran"
    ));
    assert!(batch.finished, "the sequence ends after the finished-flagged result");
    assert_eq!(batch.low_water_mark, 3);

    // an empty poll yields nothing new
    let poll3 = vec![];
    let (events3, err3) = batch.ingest_poll(&poll3);
    assert!(err3.is_none());
    assert!(events3.is_empty());
}

#[test]
fn failed_step_maps_to_step_failed() {
    let mut batch = three_command_batch();
    let poll = vec![step(0, false, Some("deploy blew up"), true)];
    let (events, err) = batch.ingest_poll(&poll);
    assert!(err.is_none());
    assert_eq!(events.len(), 1);
    assert!(matches!(
        &events[0],
        Event::StepFailed { message } if message == "deploy blew up"
    ));
}

#[test]
fn out_of_range_index_is_a_hard_error() {
    let mut batch = three_command_batch();
    let poll = vec![step(0, true, None, false), step(7, true, None, false)];
    let (events, err) = batch.ingest_poll(&poll);
    assert_eq!(events.len(), 1, "events before the bad index are still delivered");
    match err {
        Some(BatchError::InvalidCommandIndex { index }) => assert_eq!(index, 7),
        None => panic!("an unresolvable index must fail the batch"),
    }
}

#[test]
fn batch_exposes_id_and_commands() {
    let batch = three_command_batch();
    assert_eq!(batch.id(), "batch-1");
    let commands = batch.commands();
    assert_eq!(commands.len(), 3);
    assert!(matches!(commands[0], ExeCommand::Deploy));
}

#[test]
fn collect_outputs_gathers_or_fails_on_first_failure() {
    let ok_events = vec![
        Event::StepSuccess { command: ExeCommand::Deploy, output: "a".to_string() },
        Event::StepSuccess { command: ExeCommand::Terminate, output: "b".to_string() },
    ];
    assert_eq!(collect_outputs(&ok_events).unwrap(), vec!["a".to_string(), "b".to_string()]);

    let failing = vec![
        Event::StepSuccess { command: ExeCommand::Deploy, output: "a".to_string() },
        Event::StepFailed { message: "boom".to_string() },
        Event::StepFailed { message: "later".to_string() },
    ];
    assert_eq!(collect_outputs(&failing).unwrap_err(), "boom".to_string());
}

#[test]
fn finish_outcome_reads_the_tail_of_a_poll() {
    assert!(finish_outcome(&vec![]).is_none());
    assert!(finish_outcome(&vec![step(0, true, None, false)]).is_none());
    assert_eq!(finish_outcome(&vec![step(0, true, None, true)]), Some(Ok(())));
    assert_eq!(
        finish_outcome(&vec![step(0, false, Some("bad".into()), true)]),
        Some(Err("bad".to_string()))
    );
    assert_eq!(
        finish_outcome(&vec![step(0, false, None, true)]),
        Some(Err(String::new()))
    );
}

#[test]
fn transient_poll_errors_are_retried() {
    assert!(should_retry_poll(&ApiError::Timeout));
    assert!(should_retry_poll(&ApiError::Internal { message: "Timeout".to_string() }));
    assert!(!should_retry_poll(&ApiError::Internal { message: "broken".to_string() }));
    assert!(!should_retry_poll(&ApiError::Other { message: "Timeout".to_string() }));
}
