use pinentry_bitwarden::error::Error;
use pinentry_bitwarden::protocol::Response;
use pinentry_bitwarden::protocol::parse_line;

#[test]
fn ok_line_is_terminal_success() {
    assert_eq!(parse_line(&b"OK".to_vec()), Ok(Response::Okay));
    assert_eq!(parse_line(&b"OK closing connection".to_vec()), Ok(Response::Okay));
}

#[test]
fn ok_prefix_is_case_sensitive_and_exact() {
    assert_eq!(parse_line(&b"ok".to_vec()), Err(Error::ProtocolParseError));
    assert_eq!(parse_line(&b"OKAY".to_vec()), Err(Error::ProtocolParseError));
}

#[test]
fn err_line_carries_code_and_message() {
    assert_eq!(
        parse_line(&b"ERR 1 Unknown command".to_vec()),
        Ok(Response::Failed { code: 1, message: b"Unknown command".to_vec() })
    );
    assert_eq!(
        parse_line(&b"ERR 67108881 No data".to_vec()),
        Ok(Response::Failed { code: 67108881, message: b"No data".to_vec() })
    );
}

#[test]
fn err_line_message_may_be_empty() {
    assert_eq!(parse_line(&b"ERR 42".to_vec()), Ok(Response::Failed { code: 42, message: vec![] }));
}

#[test]
fn err_line_needs_a_numeric_code() {
    assert_eq!(parse_line(&b"ERR".to_vec()), Err(Error::ProtocolParseError));
    assert_eq!(parse_line(&b"ERR x".to_vec()), Err(Error::ProtocolParseError));
    assert_eq!(parse_line(&b"ERR 1x rest".to_vec()), Err(Error::ProtocolParseError));
    assert_eq!(
        parse_line(&b"ERR 99999999999999999999 too big".to_vec()),
        Err(Error::ProtocolParseError)
    );
}

#[test]
fn data_line_decodes_payload() {
    assert_eq!(parse_line(&b"D 12345".to_vec()), Ok(Response::Data { payload: b"12345".to_vec() }));
    assert_eq!(
        parse_line(&b"D a%25b%0D%0A".to_vec()),
        Ok(Response::Data { payload: vec![97, 37, 98, 13, 10] })
    );
    assert_eq!(parse_line(&b"D ".to_vec()), Ok(Response::Data { payload: vec![] }));
}

#[test]
fn data_line_rejects_bad_escape_and_bare_d() {
    assert_eq!(parse_line(&b"D %GG".to_vec()), Err(Error::ProtocolParseError));
    assert_eq!(parse_line(&b"D".to_vec()), Err(Error::ProtocolParseError));
}

#[test]
fn status_line_has_keyword_and_rest() {
    assert_eq!(
        parse_line(&b"S KEYWORD rest of line".to_vec()),
        Ok(Response::Status { keyword: b"KEYWORD".to_vec(), rest: b"rest of line".to_vec() })
    );
    assert_eq!(
        parse_line(&b"S PROGRESS".to_vec()),
        Ok(Response::Status { keyword: b"PROGRESS".to_vec(), rest: vec![] })
    );
    assert_eq!(parse_line(&b"S".to_vec()), Err(Error::ProtocolParseError));
    assert_eq!(parse_line(&b"S  two".to_vec()), Err(Error::ProtocolParseError));
}

#[test]
fn comment_line_keeps_its_text() {
    assert_eq!(
        parse_line(&b"# just a note".to_vec()),
        Ok(Response::Comment { text: b" just a note".to_vec() })
    );
    assert_eq!(parse_line(&b"#".to_vec()), Ok(Response::Comment { text: vec![] }));
}

#[test]
fn inquire_line_names_its_keyword() {
    assert_eq!(
        parse_line(&b"INQUIRE PASSPHRASE".to_vec()),
        Ok(Response::Inquire { keyword: b"PASSPHRASE".to_vec() })
    );
    assert_eq!(parse_line(&b"INQUIRE".to_vec()), Err(Error::ProtocolParseError));
}

#[test]
fn malformed_line_is_rejected_never_ok() {
    for line in [&b"WAT foo"[..], b"", b" OK", b"OKX", b"ERRX 1", b"Dx", b"INQUIREX k"] {
        let parsed = parse_line(&line.to_vec());
        assert_eq!(parsed, Err(Error::ProtocolParseError));
        assert!(parsed != Ok(Response::Okay));
    }
}
