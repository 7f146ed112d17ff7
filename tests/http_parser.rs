use reveal_core::{extract_value_from_transcript, Handler, HandlerAction, HandlerParams, HandlerPart, HandlerType};

const SAMPLE_REQUEST: &str = "GET /api/test HTTP/1.1\r\n\
    Host: example.com\r\n\
    Content-Type: application/json\r\n\
    \r\n\
    {\"name\":\"John\",\"age\":30}";

const SAMPLE_RESPONSE: &str = "HTTP/1.1 200 OK\r\n\
    Date: Tue, 28 Oct 2025 14:46:24 GMT\r\n\
    Content-Type: application/json\r\n\
    \r\n\
    {\"screen_name\":\"test_user\",\"protected\":false}";

fn params() -> HandlerParams {
    HandlerParams {
        key: None,
        hide_key: None,
        hide_value: None,
        content_type: None,
        path: None,
        regex: None,
        flags: None,
    }
}

fn handler(handler_type: HandlerType, part: HandlerPart, params: Option<HandlerParams>) -> Handler {
    Handler { handler_type, part, action: HandlerAction::Reveal, params }
}

#[test]
fn http_parser_test_extract_start_line_request() {
    let handler = handler(HandlerType::Sent, HandlerPart::StartLine, None);

    let result = extract_value_from_transcript(SAMPLE_REQUEST, &handler).unwrap();
    assert_eq!(result, "GET /api/test HTTP/1.1");
}

#[test]
fn http_parser_test_extract_start_line_response() {
    let handler = handler(HandlerType::Recv, HandlerPart::StartLine, None);

    let result = extract_value_from_transcript(SAMPLE_RESPONSE, &handler).unwrap();
    assert_eq!(result, "HTTP/1.1 200 OK");
}

#[test]
fn http_parser_test_extract_method() {
    let handler = handler(HandlerType::Sent, HandlerPart::Method, None);

    let result = extract_value_from_transcript(SAMPLE_REQUEST, &handler).unwrap();
    assert_eq!(result, "GET");
}

#[test]
fn http_parser_test_extract_protocol() {
    let handler = handler(HandlerType::Sent, HandlerPart::Protocol, None);

    let result = extract_value_from_transcript(SAMPLE_REQUEST, &handler).unwrap();
    assert_eq!(result, "HTTP/1.1");
}

#[test]
fn http_parser_test_extract_request_target() {
    let handler = handler(HandlerType::Sent, HandlerPart::RequestTarget, None);

    let result = extract_value_from_transcript(SAMPLE_REQUEST, &handler).unwrap();
    assert_eq!(result, "/api/test");
}

#[test]
fn http_parser_test_extract_status_code() {
    let handler = handler(HandlerType::Recv, HandlerPart::StatusCode, None);

    let result = extract_value_from_transcript(SAMPLE_RESPONSE, &handler).unwrap();
    assert_eq!(result, "200");
}

#[test]
fn http_parser_test_extract_header_full() {
    let handler = handler(HandlerType::Recv, HandlerPart::Headers, Some(HandlerParams { key: Some("Date".to_string()), ..params() }));

    let result = extract_value_from_transcript(SAMPLE_RESPONSE, &handler).unwrap();
    assert_eq!(result, "Date: Tue, 28 Oct 2025 14:46:24 GMT");
}

#[test]
fn http_parser_test_extract_header_value_only() {
    let handler = handler(HandlerType::Recv, HandlerPart::Headers, Some(HandlerParams { key: Some("Date".to_string()), hide_key: Some(true), ..params() }));

    let result = extract_value_from_transcript(SAMPLE_RESPONSE, &handler).unwrap();
    assert_eq!(result, "Tue, 28 Oct 2025 14:46:24 GMT");
}

#[test]
fn http_parser_test_extract_header_key_only() {
    let handler = handler(HandlerType::Recv, HandlerPart::Headers, Some(HandlerParams { key: Some("Date".to_string()), hide_value: Some(true), ..params() }));

    let result = extract_value_from_transcript(SAMPLE_RESPONSE, &handler).unwrap();
    assert_eq!(result, "Date");
}

#[test]
fn http_parser_test_extract_json_field_full() {
    let handler = handler(HandlerType::Recv, HandlerPart::Body, Some(HandlerParams { content_type: Some("json".to_string()), path: Some("screen_name".to_string()), ..params() }));

    let result = extract_value_from_transcript(SAMPLE_RESPONSE, &handler).unwrap();
    assert_eq!(result, "\"screen_name\":\"test_user\"");
}

#[test]
fn http_parser_test_extract_json_field_value_only() {
    let handler = handler(HandlerType::Recv, HandlerPart::Body, Some(HandlerParams { content_type: Some("json".to_string()), path: Some("screen_name".to_string()), hide_key: Some(true), ..params() }));

    let result = extract_value_from_transcript(SAMPLE_RESPONSE, &handler).unwrap();
    assert_eq!(result, "\"test_user\"");
}

#[test]
fn http_parser_test_extract_json_field_key_only() {
    let handler = handler(HandlerType::Recv, HandlerPart::Body, Some(HandlerParams { content_type: Some("json".to_string()), path: Some("screen_name".to_string()), hide_value: Some(true), ..params() }));

    let result = extract_value_from_transcript(SAMPLE_RESPONSE, &handler).unwrap();
    assert_eq!(result, "\"screen_name\"");
}

#[test]
fn http_parser_test_extract_full_body() {
    let handler = handler(HandlerType::Recv, HandlerPart::Body, None);

    let result = extract_value_from_transcript(SAMPLE_RESPONSE, &handler).unwrap();
    assert_eq!(result, "{\"screen_name\":\"test_user\",\"protected\":false}");
}
