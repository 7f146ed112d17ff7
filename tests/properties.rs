use rangeset::set::RangeSet;
use reveal_core::json::find_json_path;
use reveal_core::{
    build_reveal_config, bytes_to_redacted_string, complete_verification, extract_value_from_transcript,
    find_header_range, parse_http_parts, process_ranges, project, resolve, verify_reveal_config, ByteRange,
    ConfigError, ExtractError, Handler, HandlerAction, HandlerParams, HandlerPart, HandlerTag, HandlerType,
    RangeWithHandler, RedactedTranscript, RevealConfig, SessionAction, SessionEvent, SessionMachine,
    SessionPhase, SessionRegistry,
};

const REQUEST: &[u8] = b"GET /api/test HTTP/1.1\r\nHost: example.com\r\nContent-Type: application/json\r\n\r\n{\"name\":\"John\",\"age\":30}";
const RESPONSE: &[u8] = b"HTTP/1.1 200 OK\r\nDate: Tue, 28 Oct 2025 14:46:24 GMT\r\nContent-Type: application/json\r\n\r\n{\"screen_name\":\"test_user\",\"protected\":false}";

fn no_params() -> HandlerParams {
    HandlerParams {
        key: None,
        hide_key: None,
        hide_value: None,
        content_type: None,
        path: None,
        regex: None,
        flags: None,
    }
}

fn handler(handler_type: HandlerType, part: HandlerPart, params: Option<HandlerParams>) -> Handler {
    Handler { handler_type, part, action: HandlerAction::Reveal, params }
}

fn json_handler(path: &str, hide_key: bool, hide_value: bool) -> Handler {
    handler(
        HandlerType::Recv,
        HandlerPart::Body,
        Some(HandlerParams {
            content_type: Some("json".to_string()),
            path: Some(path.to_string()),
            hide_key: Some(hide_key),
            hide_value: Some(hide_value),
            ..no_params()
        }),
    )
}

fn range(start: usize, end: usize, handler_type: HandlerType, part: HandlerPart) -> RangeWithHandler {
    RangeWithHandler { start, end, handler: HandlerTag { handler_type, part } }
}

fn resolve_in(h: &Handler, b: &[u8]) -> Option<ByteRange> {
    let m = parse_http_parts(b).unwrap();
    resolve(h, b, &m)
}

#[test]
fn projection_is_idempotent() {
    let bytes = b"abcdefghij".to_vec();
    let ranges = vec![range(1, 3, HandlerType::Sent, HandlerPart::All), range(2, 6, HandlerType::Sent, HandlerPart::All)];
    let once = project(&bytes, &ranges);
    assert_eq!(once, vec![0, b'b', b'c', b'd', b'e', b'f', 0, 0, 0, 0]);
    assert_eq!(project(&once, &ranges), once);
}

#[test]
fn projection_skips_ranges_that_do_not_fit() {
    let bytes = b"abcd".to_vec();
    let ranges = vec![range(4, 4, HandlerType::Sent, HandlerPart::All), range(2, 9, HandlerType::Sent, HandlerPart::All)];
    assert_eq!(project(&bytes, &ranges), vec![0, 0, 0, 0]);
}

#[test]
fn redacted_transcript_keeps_lengths() {
    let config = RevealConfig {
        sent: vec![range(0, 3, HandlerType::Sent, HandlerPart::Method)],
        recv: vec![],
    };
    let t = RedactedTranscript::from_transcript(REQUEST, RESPONSE, &config);
    assert_eq!(t.sent_length, REQUEST.len());
    assert_eq!(t.recv_length, RESPONSE.len());
    assert!(t.sent.starts_with("GET\0\0"));
    assert_eq!(t.recv, "\0".repeat(RESPONSE.len()));
}

#[test]
fn resolved_ranges_stay_inside_the_transcript() {
    let handlers = vec![
        handler(HandlerType::Sent, HandlerPart::All, None),
        handler(HandlerType::Sent, HandlerPart::Headers, None),
        handler(HandlerType::Sent, HandlerPart::Body, None),
        handler(HandlerType::Recv, HandlerPart::StatusCode, None),
        json_handler("protected", true, false),
    ];
    let config = build_reveal_config(REQUEST, RESPONSE, &handlers).unwrap();
    for r in &config.sent {
        assert!(r.start <= r.end && r.end <= REQUEST.len());
    }
    for r in &config.recv {
        assert!(r.start <= r.end && r.end <= RESPONSE.len());
    }
    assert_eq!(config.sent.len(), 3);
    assert_eq!(config.recv.len(), 2);
}

#[test]
fn no_handlers_reveal_everything() {
    let config = build_reveal_config(REQUEST, RESPONSE, &vec![]).unwrap();
    assert_eq!(config.sent, vec![range(0, REQUEST.len(), HandlerType::Sent, HandlerPart::All)]);
    assert_eq!(config.recv, vec![range(0, RESPONSE.len(), HandlerType::Recv, HandlerPart::All)]);
}

#[test]
fn no_handlers_need_no_structure() {
    let config = build_reveal_config(b"raw", b"", &vec![]).unwrap();
    assert_eq!(config.sent, vec![range(0, 3, HandlerType::Sent, HandlerPart::All)]);
    assert_eq!(config.recv, vec![range(0, 0, HandlerType::Recv, HandlerPart::All)]);
}

#[test]
fn recv_handlers_leave_sent_redacted() {
    let handlers = vec![handler(HandlerType::Recv, HandlerPart::StartLine, None)];
    let config = build_reveal_config(REQUEST, RESPONSE, &handlers).unwrap();
    assert!(config.sent.is_empty());
    assert_eq!(config.recv, vec![range(0, 15, HandlerType::Recv, HandlerPart::StartLine)]);
}

#[test]
fn unresolved_handlers_are_not_backfilled() {
    let handlers = vec![
        handler(HandlerType::Sent, HandlerPart::StatusCode, None),
        handler(
            HandlerType::Recv,
            HandlerPart::Headers,
            Some(HandlerParams { key: Some("X-Missing".to_string()), ..no_params() }),
        ),
    ];
    let config = build_reveal_config(REQUEST, RESPONSE, &handlers).unwrap();
    assert!(config.sent.is_empty());
    assert!(config.recv.is_empty());
}

#[test]
fn unstructured_transcripts_are_rejected() {
    let handlers = vec![handler(HandlerType::Sent, HandlerPart::All, None)];
    assert_eq!(
        build_reveal_config(b"GET / HTTP/1.1\r\nHost: a\r\n", RESPONSE, &handlers).unwrap_err(),
        ConfigError::RequestUnparsable
    );
    assert_eq!(
        build_reveal_config(REQUEST, b"HTTP/1.1 200 OK", &handlers).unwrap_err(),
        ConfigError::ResponseUnparsable
    );
    assert!(parse_http_parts(b"no terminator").is_none());
}

#[test]
fn validation_accepts_covered_ranges() {
    let config = RevealConfig {
        sent: vec![range(0, 3, HandlerType::Sent, HandlerPart::Method)],
        recv: vec![range(2, 5, HandlerType::Recv, HandlerPart::All), range(8, 10, HandlerType::Recv, HandlerPart::All)],
    };
    let sent_authed = RangeSet::from(vec![0..4]);
    let recv_authed = RangeSet::from(vec![0..6, 8..12]);
    assert_eq!(verify_reveal_config(&config, &sent_authed, &recv_authed), Ok(()));
}

#[test]
fn validation_names_the_first_uncovered_range() {
    let config = RevealConfig {
        sent: vec![range(0, 3, HandlerType::Sent, HandlerPart::Method)],
        recv: vec![
            range(2, 5, HandlerType::Recv, HandlerPart::All),
            range(5, 9, HandlerType::Recv, HandlerPart::All),
            range(20, 30, HandlerType::Recv, HandlerPart::All),
        ],
    };
    let sent_authed = RangeSet::from(vec![0..4]);
    let recv_authed = RangeSet::from(vec![0..6, 8..12]);
    assert_eq!(verify_reveal_config(&config, &sent_authed, &recv_authed), Err((HandlerType::Recv, 5, 9)));

    let empty: RangeSet<usize> = RangeSet::from(vec![]);
    assert_eq!(verify_reveal_config(&config, &empty, &recv_authed), Err((HandlerType::Sent, 0, 3)));
}

#[test]
fn completion_discloses_nothing_on_violation() {
    let config = RevealConfig {
        sent: vec![range(0, 3, HandlerType::Sent, HandlerPart::Method)],
        recv: vec![range(9, 12, HandlerType::Recv, HandlerPart::StatusCode)],
    };
    let all_sent = RangeSet::from(vec![0..REQUEST.len()]);
    let all_recv = RangeSet::from(vec![0..RESPONSE.len()]);
    let results = complete_verification(&config, REQUEST, RESPONSE, &all_sent, &all_recv).unwrap();
    assert_eq!(results.len(), 2);
    assert_eq!(results[0].value, "GET");
    assert_eq!(results[1].value, "200");
    assert_eq!(results[1].handler, HandlerTag { handler_type: HandlerType::Recv, part: HandlerPart::StatusCode });

    let partial = RangeSet::from(vec![0..10]);
    assert_eq!(
        complete_verification(&config, REQUEST, RESPONSE, &all_sent, &partial).unwrap_err(),
        (HandlerType::Recv, 9, 12)
    );
}

#[test]
fn header_and_start_line_are_byte_exact() {
    let host = handler(
        HandlerType::Sent,
        HandlerPart::Headers,
        Some(HandlerParams { key: Some("host".to_string()), ..no_params() }),
    );
    let start = handler(HandlerType::Sent, HandlerPart::StartLine, None);
    let config = build_reveal_config(REQUEST, RESPONSE, &vec![host, start]).unwrap();
    let h = config.sent[0];
    let s = config.sent[1];
    let exact = handler(
        HandlerType::Sent,
        HandlerPart::Headers,
        Some(HandlerParams { key: Some("Host".to_string()), ..no_params() }),
    );
    assert_eq!(resolve_in(&exact, REQUEST), Some(ByteRange { start: 24, end: 41 }));
    assert_eq!(&REQUEST[h.start..h.end], b"Host: example.com");
    assert_eq!((h.start, h.end), (24, 41));
    assert_eq!(&REQUEST[s.start..s.end], b"GET /api/test HTTP/1.1");
    assert_eq!((s.start, s.end), (0, 22));
}

#[test]
fn header_lookup_returns_the_whole_line() {
    let m = parse_http_parts(REQUEST).unwrap();
    assert_eq!(find_header_range(REQUEST, "CONTENT-type", &m), Some((43, 73)));
    assert_eq!(find_header_range(REQUEST, "Content", &m), None);
    assert_eq!(m.headers.len(), 2);
    assert_eq!(m.body.unwrap().offset, 77);
}

#[test]
fn headers_without_key_span_all_header_lines() {
    let r = resolve_in(&handler(HandlerType::Recv, HandlerPart::Headers, None), RESPONSE).unwrap();
    assert_eq!(&RESPONSE[r.start..r.end], b"Date: Tue, 28 Oct 2025 14:46:24 GMT\r\nContent-Type: application/json");
}

#[test]
fn json_path_resolves_to_value_or_key() {
    let value = resolve_in(&json_handler("screen_name", true, false), RESPONSE).unwrap();
    let slice = &RESPONSE[value.start..value.end];
    assert_eq!(serde_json::from_slice::<serde_json::Value>(slice).unwrap(), serde_json::Value::String("test_user".to_string()));

    let key = resolve_in(&json_handler("screen_name", false, true), RESPONSE).unwrap();
    let slice = &RESPONSE[key.start..key.end];
    assert_eq!(serde_json::from_slice::<serde_json::Value>(slice).unwrap(), serde_json::Value::String("screen_name".to_string()));

    let both = resolve_in(&json_handler("protected", false, false), RESPONSE).unwrap();
    assert_eq!(&RESPONSE[both.start..both.end], b"\"protected\":false");
}

#[test]
fn json_path_follows_nested_members_and_indices() {
    let body = b"HTTP/1.1 200 OK\r\nA: b\r\n\r\n{\"items\": [ {\"name\": \"a\\\"b\"}, {\"name\": \"second\", \"n\": [1, 2]} ], \"x\": {}}";
    let r = resolve_in(&json_handler("items[1].name", true, false), body).unwrap();
    assert_eq!(&body[r.start..r.end], b"\"second\"");
    let r = resolve_in(&json_handler("items[1].n[1]", true, false), body).unwrap();
    assert_eq!(&body[r.start..r.end], b"2");
    let r = resolve_in(&json_handler("items[0].name", true, false), body).unwrap();
    assert_eq!(&body[r.start..r.end], b"\"a\\\"b\"");
    assert!(resolve_in(&json_handler("items[2].name", true, false), body).is_none());
    assert!(resolve_in(&json_handler("items[x].name", true, false), body).is_none());
    assert!(resolve_in(&json_handler("x.y", true, false), body).is_none());
}

#[test]
fn json_path_on_a_non_json_body_fails() {
    let body = b"HTTP/1.1 200 OK\r\nA: b\r\n\r\n{\"screen_name\": \"test_user\"";
    assert!(resolve_in(&json_handler("screen_name", true, false), body).is_none());
}

#[test]
fn hiding_key_and_value_is_rejected() {
    let h = handler(
        HandlerType::Recv,
        HandlerPart::Headers,
        Some(HandlerParams { key: Some("Date".to_string()), hide_key: Some(true), hide_value: Some(true), ..no_params() }),
    );
    assert!(resolve_in(&h, RESPONSE).is_none());
    assert!(resolve_in(&json_handler("screen_name", true, true), RESPONSE).is_none());
}

#[test]
fn missing_parts_do_not_resolve() {
    let no_body = b"HTTP/1.1 204 No Content\r\nA: b\r\n\r\n";
    assert!(resolve_in(&handler(HandlerType::Recv, HandlerPart::Body, None), no_body).is_none());
    let no_headers = b"HTTP/1.1 204 No Content\r\n\r\nbody";
    assert!(resolve_in(&handler(HandlerType::Recv, HandlerPart::Headers, None), no_headers).is_none());
    let short = b"GET /\r\n\r\n";
    assert!(resolve_in(&handler(HandlerType::Sent, HandlerPart::Protocol, None), short).is_none());
    let r = resolve_in(&handler(HandlerType::Sent, HandlerPart::RequestTarget, None), short).unwrap();
    assert_eq!(&short[r.start..r.end], b"/");
    assert!(resolve_in(&handler(HandlerType::Recv, HandlerPart::Method, None), RESPONSE).is_none());
    let p = resolve_in(&handler(HandlerType::Recv, HandlerPart::Protocol, None), RESPONSE).unwrap();
    assert_eq!(&RESPONSE[p.start..p.end], b"HTTP/1.1");
}

#[test]
fn extraction_reports_its_errors() {
    let h = handler(HandlerType::Sent, HandlerPart::StartLine, None);
    assert_eq!(extract_value_from_transcript("GET / HTTP/1.1", &h).unwrap_err(), ExtractError::Unstructured);
    let b = handler(HandlerType::Sent, HandlerPart::Body, None);
    assert_eq!(extract_value_from_transcript("GET / HTTP/1.1\r\n\r\n", &b).unwrap_err(), ExtractError::Unresolved);
}

#[test]
fn process_ranges_reports_ranges_that_do_not_fit() {
    let ranges = vec![range(3, 2, HandlerType::Sent, HandlerPart::All), range(0, 99, HandlerType::Sent, HandlerPart::All)];
    let results = process_ranges(&ranges, b"abc");
    assert_eq!(results[0].value, "ERROR: Invalid range [3, 2)");
    assert_eq!(results[1].value, "ERROR: Invalid range [0, 99)");
    let far = process_ranges(&vec![range(1234567, 10, HandlerType::Recv, HandlerPart::All)], b"abc");
    assert_eq!(far[0].value, "ERROR: Invalid range [1234567, 10)");
    let lossy = process_ranges(&vec![range(0, 2, HandlerType::Sent, HandlerPart::All)], &[0xff, b'a']);
    assert_eq!(lossy[0].value, "\u{fffd}a");
}

#[test]
fn redacted_string_marks_unrevealed_bytes() {
    assert_eq!(bytes_to_redacted_string(b"ab\0\0c", "*"), Some("ab**c".to_string()));
    assert_eq!(bytes_to_redacted_string(&[0xff], "*"), None);
}

#[test]
fn sessions_get_distinct_ids_and_are_claimed_once() {
    let mut registry: SessionRegistry<u32> = SessionRegistry::new();
    let a = registry.open_session(1).unwrap();
    let b = registry.open_session(2).unwrap();
    assert_ne!(a, b);
    assert_eq!(a.len(), 36);
    assert_eq!(registry.claim(&a), Some(1));
    assert_eq!(registry.claim(&a), None);
    assert_eq!(registry.register(b.clone(), 3), Err(3));
    assert_eq!(registry.claim(&b), Some(2));
    assert_eq!(registry.len(), 0);
}

#[test]
fn timed_out_session_leaves_others_alone() {
    let mut registry: SessionRegistry<&str> = SessionRegistry::new();
    registry.register("slow".to_string(), "slow-slot").unwrap();
    registry.register("fast".to_string(), "fast-slot").unwrap();

    let mut slow = SessionMachine::new().step(SessionEvent::TaskStarted).0;
    let mut fast = slow;
    let (next, action) = slow.step(SessionEvent::WaitExpired);
    slow = next;
    assert_eq!(slow.phase, SessionPhase::TimedOut);
    assert_eq!(action, SessionAction::Abort);
    registry.remove(&"slow".to_string());
    registry.remove(&"slow".to_string());

    assert_eq!(registry.claim(&"fast".to_string()), Some("fast-slot"));
    fast = fast.step(SessionEvent::ProverSocket).0;
    assert_eq!(fast.phase, SessionPhase::Verifying);
}

#[test]
fn session_validates_only_with_both_inputs() {
    let m = SessionMachine::new();
    let (m, a) = m.step(SessionEvent::TaskStarted);
    assert_eq!(a, SessionAction::AwaitProverSocket { timeout_secs: 30 });
    let (m, a) = m.step(SessionEvent::ProverSocket);
    assert_eq!(a, SessionAction::Verify { timeout_secs: 120 });
    let (m, a) = m.step(SessionEvent::VerificationSucceeded);
    assert_eq!(a, SessionAction::AwaitRevealConfig { timeout_secs: 30 });
    let (m, a) = m.step(SessionEvent::RevealConfigReceived);
    assert_eq!(a, SessionAction::Validate);
    let (m, a) = m.step(SessionEvent::ValidationPassed);
    assert_eq!((m.phase, a), (SessionPhase::Completed, SessionAction::Deliver));
    let (m2, a) = m.step(SessionEvent::ConnectionClosed);
    assert_eq!((m2, a), (m, SessionAction::Wait));

    let early = SessionMachine::new().step(SessionEvent::RevealConfigReceived).0;
    let early = early.step(SessionEvent::TaskStarted).0;
    let early = early.step(SessionEvent::ProverSocket).0;
    let (early, a) = early.step(SessionEvent::VerificationSucceeded);
    assert_eq!(a, SessionAction::Validate);
    let (early, a) = early.step(SessionEvent::ValidationFailed);
    assert_eq!((early.phase, a), (SessionPhase::Failed, SessionAction::Abort));
}

#[test]
fn json_keys_are_matched_decoded_and_last_duplicate_wins() {
    let doc = br#"{"\u0061":1,"b\n":2,"a":3}"#;
    let r = find_json_path(doc, b"a", true, false).unwrap();
    assert_eq!(&doc[r.0..r.1], b"3");
    let r = find_json_path(doc, b"b\n", true, false).unwrap();
    assert_eq!(&doc[r.0..r.1], b"2");
    let first_only = br#"{"\u00e9":true}"#;
    let r = find_json_path(first_only, "\u{e9}".as_bytes(), true, false).unwrap();
    assert_eq!(&first_only[r.0..r.1], b"true");
    let pair = br#"{"\ud83d\ude48":0}"#;
    assert!(find_json_path(pair, "\u{1f648}".as_bytes(), true, false).is_some());
}

#[test]
fn json_path_requires_a_json_document() {
    assert_eq!(find_json_path(br#"{"a":1"#, b"a", true, false), None);
    assert_eq!(find_json_path(br#"{"a":1}"#, b"a", true, false), Some((5, 6)));
}
