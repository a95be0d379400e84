use traffic_link::ingest::{ack_bytes, handle_payload, IngestOutcome};
use traffic_link::timestamp::LastExecution;

#[test]
fn zero_bytes_mean_peer_closed_and_nothing_changes() {
    let mut state = LastExecution::new(7_000);
    let outcome = handle_payload(&mut state, &Vec::new(), 9_000);
    assert!(matches!(outcome, IngestOutcome::PeerClosed));
    assert_eq!(state.last_ms, 7_000);
}

#[test]
fn non_utf8_bytes_are_dropped_silently() {
    let mut state = LastExecution::new(7_000);
    let bytes: Vec<u8> = vec![0xff, 0xfe, 0xfd];
    let outcome = handle_payload(&mut state, &bytes, 9_000);
    assert!(matches!(outcome, IngestOutcome::Malformed));
    assert_eq!(state.last_ms, 7_000);
}

#[test]
fn a_command_is_trimmed_logged_and_acknowledged() {
    let mut state = LastExecution::new(7_000);
    let bytes = b"  green \n".to_vec();
    let outcome = handle_payload(&mut state, &bytes, 9_500);
    match outcome {
        IngestOutcome::Acknowledged { command, interval_ms } => {
            assert_eq!(command, "green");
            assert_eq!(interval_ms, 2500);
        }
        _ => panic!("expected an acknowledged command"),
    }
    assert_eq!(state.last_ms, 9_500);
}

#[test]
fn any_text_is_accepted_as_a_command() {
    let mut state = LastExecution::new(0);
    let outcome = handle_payload(&mut state, &b"whatever text".to_vec(), 10);
    assert!(matches!(outcome, IngestOutcome::Acknowledged { .. }));
    assert_eq!(state.last_ms, 10);
}

#[test]
fn acknowledgement_is_the_nine_byte_json_string() {
    let ack = ack_bytes();
    assert_eq!(ack.len(), 9);
    assert_eq!(ack, b"\"SUCCESS\"".to_vec());
    let decoded: String = serde_json::from_slice(&ack).expect("ack must be a JSON string");
    assert_eq!(decoded, "SUCCESS");
}
