use yarapi::codec::{encode_message, CommandOutput, MessageProcessor, MESSAGE_END, MESSAGE_START};
use yarapi::streaming::{capture_event, RuntimeEvent, RuntimeEventKind};

fn progress_value(v: f64) -> serde_json::Value {
    let mut map = serde_json::Map::new();
    map.insert("Progress".to_string(), serde_json::Value::from(v));
    serde_json::Value::Object(map)
}

fn encode_progress(v: f64) -> Vec<u8> {
    let payload = serde_json::to_vec(&progress_value(v)).unwrap();
    encode_message(&payload)
}

fn progress_of(msg: &[u8]) -> f64 {
    let value: serde_json::Value = serde_json::from_slice(msg).unwrap();
    match value.get("Progress").and_then(|x| x.as_f64()) {
        Some(p) => p,
        None => panic!("Expected Messages::Progress"),
    }
}

#[test]
fn test_messages_only_messages_single_output() {
    let msg1 = encode_progress(0.2);
    let msg2 = encode_progress(0.5);

    let content: Vec<u8> = msg1.into_iter().chain(msg2.into_iter()).collect();
    let output = CommandOutput::Bin(content);

    let mut processor = MessageProcessor::new();
    let (msgs, rest) = processor.consume_message(&output);

    if rest.is_some() {
        panic!("Should consume whole output");
    }
    assert_eq!(msgs.len(), 2);
    assert_eq!(progress_of(&msgs[0]), 0.2);
    assert_eq!(progress_of(&msgs[1]), 0.5);
}

#[test]
fn test_messages_single_message_surrounded() {
    let msg1 = encode_progress(0.2);
    let before = "Pretty weather is today".to_string();
    let after = "Execution finished".to_string();

    let content: Vec<u8> = before
        .as_bytes()
        .iter()
        .chain(msg1.iter())
        .chain(after.as_bytes().iter())
        .cloned()
        .collect();
    let output = CommandOutput::Bin(content);

    let mut processor = MessageProcessor::new();
    let (msgs, rest) = processor.consume_message(&output);

    match rest {
        Some(CommandOutput::Bin(text)) => {
            let expected: Vec<u8> = before
                .as_bytes()
                .iter()
                .chain(after.as_bytes().iter())
                .cloned()
                .collect();
            assert_eq!(text, expected);
        }
        Some(_) => panic!("Expected bin output."),
        None => panic!("Expected not empty output."),
    }

    assert_eq!(msgs.len(), 1);
    assert_eq!(progress_of(&msgs[0]), 0.2);
}

#[test]
fn frame_split_across_chunks_decodes_once() {
    let payload = b"{\"Info\":\"half\"}".to_vec();
    let framed = encode_message(&payload);
    assert_eq!(framed[0], MESSAGE_START);
    assert_eq!(*framed.last().unwrap(), MESSAGE_END);

    // split inside the frame, in every position, prefix and suffix around it
    for split in 0..framed.len() + 1 {
        let mut first = b"pre".to_vec();
        first.extend_from_slice(&framed[..split]);
        let mut second = framed[split..].to_vec();
        second.extend_from_slice(b"post");

        let mut processor = MessageProcessor::new();
        let (msgs1, rest1) = processor.consume_message(&CommandOutput::Bin(first));
        let (msgs2, rest2) = processor.consume_message(&CommandOutput::Bin(second));

        let mut all_msgs = msgs1;
        all_msgs.extend(msgs2);
        assert_eq!(all_msgs.len(), 1, "one message per embedded frame");
        assert_eq!(all_msgs[0], payload);

        let mut retained = Vec::new();
        if let Some(CommandOutput::Bin(b)) = rest1 {
            retained.extend(b);
        }
        if let Some(CommandOutput::Bin(b)) = rest2 {
            retained.extend(b);
        }
        assert_eq!(retained, b"prepost".to_vec());
    }
}

#[test]
fn text_chunk_passes_through_and_str_chunks_count() {
    let mut processor = MessageProcessor::new();
    let (msgs, rest) = processor.consume_message(&CommandOutput::Str("plain text".to_string()));
    assert!(msgs.is_empty());
    match rest {
        Some(CommandOutput::Bin(b)) => assert_eq!(b, b"plain text".to_vec()),
        _ => panic!("expected retained output"),
    }
}

#[test]
fn empty_chunk_yields_nothing() {
    let mut processor = MessageProcessor::new();
    let (msgs, rest) = processor.consume_message(&CommandOutput::Bin(Vec::new()));
    assert!(msgs.is_empty());
    assert!(rest.is_none(), "a chunk with no retained bytes produces no output event");
}

#[test]
fn capture_applies_only_to_standard_output() {
    let mut processor = MessageProcessor::new();

    // stderr passes through unchanged, even when it looks like a frame
    let err_event = RuntimeEvent {
        batch_id: "b".to_string(),
        index: 0,
        timestamp: 1,
        kind: RuntimeEventKind::StdErr(CommandOutput::Bin(encode_message(&b"x".to_vec()))),
    };
    let (msgs, rest) = capture_event(&mut processor, err_event);
    assert!(msgs.is_empty());
    match rest {
        Some(RuntimeEvent { kind: RuntimeEventKind::StdErr(CommandOutput::Bin(b)), .. }) => {
            assert_eq!(b, encode_message(&b"x".to_vec()));
        }
        _ => panic!("stderr must pass through unchanged"),
    }

    // a stdout event that holds only a frame is swallowed after extraction
    let out_event = RuntimeEvent {
        batch_id: "b".to_string(),
        index: 1,
        timestamp: 2,
        kind: RuntimeEventKind::StdOut(CommandOutput::Bin(encode_message(&b"payload".to_vec()))),
    };
    let (msgs, rest) = capture_event(&mut processor, out_event);
    assert_eq!(msgs.len(), 1);
    assert_eq!(msgs[0], b"payload".to_vec());
    assert!(rest.is_none(), "a poll that retained nothing yields no event");

    // mixed stdout keeps its surrounding text and identity
    let mixed = RuntimeEvent {
        batch_id: "b".to_string(),
        index: 2,
        timestamp: 3,
        kind: RuntimeEventKind::StdOut(CommandOutput::Str("see: ".to_string())),
    };
    let (msgs, rest) = capture_event(&mut processor, mixed);
    assert!(msgs.is_empty());
    match rest {
        Some(RuntimeEvent { batch_id, index, kind: RuntimeEventKind::StdOut(CommandOutput::Bin(b)), .. }) => {
            assert_eq!(batch_id, "b");
            assert_eq!(index, 2);
            assert_eq!(b, b"see: ".to_vec());
        }
        _ => panic!("retained stdout must come back on the same event"),
    }
}

#[test]
fn undecodable_frame_payload_is_still_extracted() {
    // the codec hands the payload out as bytes; whether it decodes is the
    // caller's business, and a malformed one is dropped there
    let payload = b"not json at all".to_vec();
    let framed = encode_message(&payload);
    let mut processor = MessageProcessor::new();
    let (msgs, rest) = processor.consume_message(&CommandOutput::Bin(framed));
    assert_eq!(msgs.len(), 1);
    assert_eq!(msgs[0], payload);
    assert!(rest.is_none());
    assert!(serde_json::from_slice::<serde_json::Value>(&msgs[0]).is_err());
}
