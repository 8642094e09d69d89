use pinentry_bitwarden::error::Error;
use pinentry_bitwarden::protocol::Response;
use pinentry_bitwarden::session::AssuanSession;
use pinentry_bitwarden::session::SessionPhase;
use pinentry_bitwarden::session::assemble_data;
use pinentry_bitwarden::session::collect_responses;

#[test]
fn send_frames_command_with_line_feed() {
    let mut session = AssuanSession::new();
    assert_eq!(session.phase, SessionPhase::Idle);
    let wire = session.send_line(&b"GETINFO pid".to_vec()).unwrap();
    assert_eq!(wire, b"GETINFO pid\n".to_vec());
    assert_eq!(session.phase, SessionPhase::Awaiting);
}

#[test]
fn send_rejects_embedded_line_terminators() {
    let mut session = AssuanSession::new();
    assert_eq!(session.send_line(&b"GETINFO\npid".to_vec()), Err(Error::CommandMisuse));
    assert_eq!(session.send_line(&b"GETINFO\rpid".to_vec()), Err(Error::CommandMisuse));
    assert_eq!(session.phase, SessionPhase::Idle);
}

#[test]
fn send_rejects_second_command_before_terminal_record() {
    let mut session = AssuanSession::new();
    session.send_line(&b"GETINFO pid".to_vec()).unwrap();
    assert_eq!(session.send_line(&b"BYE".to_vec()), Err(Error::CommandMisuse));
}

#[test]
fn feed_returns_records_until_terminal() {
    let mut session = AssuanSession::new();
    session.send_line(&b"GETINFO pid".to_vec()).unwrap();
    let first = session.feed_line(&b"D 12345".to_vec()).unwrap();
    assert_eq!(first, Response::Data { payload: b"12345".to_vec() });
    assert_eq!(session.phase, SessionPhase::Awaiting);
    let second = session.feed_line(&b"OK".to_vec()).unwrap();
    assert_eq!(second, Response::Okay);
    assert_eq!(session.phase, SessionPhase::Idle);
    let next = session.send_line(&b"BYE".to_vec());
    assert!(next.is_ok());
}

#[test]
fn feed_without_outstanding_command_is_misuse() {
    let mut session = AssuanSession::new();
    assert_eq!(session.feed_line(&b"OK".to_vec()), Err(Error::CommandMisuse));
}

#[test]
fn malformed_line_surfaces_parse_error_and_ends_sequence() {
    let mut session = AssuanSession::new();
    session.send_line(&b"GETINFO pid".to_vec()).unwrap();
    assert_eq!(session.feed_line(&b"WAT foo".to_vec()), Err(Error::ProtocolParseError));
    assert_eq!(session.phase, SessionPhase::Idle);
}

#[test]
fn peer_closing_mid_sequence_is_unexpected_eof() {
    let mut session = AssuanSession::new();
    session.send_line(&b"GETINFO pid".to_vec()).unwrap();
    assert_eq!(session.end_of_input(), Some(Error::UnexpectedEof));
    assert_eq!(session.phase, SessionPhase::Idle);
    assert_eq!(session.end_of_input(), None);
}

#[test]
fn getinfo_round_yields_data_then_ok() {
    let lines = vec![b"D 12345".to_vec(), b"OK".to_vec()];
    let records = collect_responses(&lines).unwrap();
    assert_eq!(
        records,
        vec![Response::Data { payload: b"12345".to_vec() }, Response::Okay]
    );
}

#[test]
fn bogus_command_yields_single_error_record() {
    let lines = vec![b"ERR 1 Unknown command".to_vec()];
    let records = collect_responses(&lines).unwrap();
    assert_eq!(
        records,
        vec![Response::Failed { code: 1, message: b"Unknown command".to_vec() }]
    );
}

#[test]
fn collection_stops_at_first_terminal_record() {
    let lines = vec![
        b"# greeting".to_vec(),
        b"S PROGRESS half".to_vec(),
        b"D part".to_vec(),
        b"OK".to_vec(),
        b"D after the end".to_vec(),
    ];
    let records = collect_responses(&lines).unwrap();
    assert_eq!(records.len(), 4);
    assert_eq!(records[3], Response::Okay);
    for r in &records[..3] {
        assert!(*r != Response::Okay);
        assert!(!matches!(r, Response::Failed { .. }));
    }
}

#[test]
fn stream_without_terminal_record_is_unexpected_eof() {
    let lines = vec![b"D part".to_vec(), b"S PROGRESS half".to_vec()];
    assert_eq!(collect_responses(&lines), Err(Error::UnexpectedEof));
    assert_eq!(collect_responses(&Vec::new()), Err(Error::UnexpectedEof));
}

#[test]
fn stream_with_malformed_line_is_parse_error() {
    let lines = vec![b"D part".to_vec(), b"WAT foo".to_vec(), b"OK".to_vec()];
    assert_eq!(collect_responses(&lines), Err(Error::ProtocolParseError));
}

#[test]
fn data_chunks_reassemble_in_order() {
    let lines = vec![
        b"D 12".to_vec(),
        b"# a note between chunks".to_vec(),
        b"D 345".to_vec(),
        b"S PROGRESS half".to_vec(),
        b"D %25".to_vec(),
        b"OK".to_vec(),
    ];
    let records = collect_responses(&lines).unwrap();
    assert_eq!(assemble_data(&records), b"12345%".to_vec());
    assert_eq!(assemble_data(&Vec::new()), Vec::<u8>::new());
}
