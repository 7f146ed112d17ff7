use reveal_core::{
    decode_chunked_body, parse_http_parts, resolve, Handler, HandlerAction, HandlerParams, HandlerPart,
    HandlerType,
};

fn json_value_handler(path: &str) -> Handler {
    Handler {
        handler_type: HandlerType::Recv,
        part: HandlerPart::Body,
        action: HandlerAction::Reveal,
        params: Some(HandlerParams {
            key: None,
            hide_key: Some(true),
            hide_value: None,
            content_type: Some("json".to_string()),
            path: Some(path.to_string()),
            regex: None,
            flags: None,
        }),
    }
}

#[test]
fn chunked_body_decodes_into_spans() {
    let body = b"5\r\nhello\r\nA\r\n0123456789\r\n0\r\n\r\n";
    let (spans, data) = decode_chunked_body(body).unwrap();
    assert_eq!(spans, vec![(3, 8), (13, 23)]);
    assert_eq!(data, b"hello0123456789".to_vec());
}

#[test]
fn chunked_body_with_malformed_size_fails() {
    assert!(decode_chunked_body(b"zz\r\nhello\r\n").is_none());
    assert!(decode_chunked_body(b"5 hello").is_none());
    assert!(decode_chunked_body(b"").is_none());
    assert!(decode_chunked_body(b"0\r\n\r\n").is_none());
    assert!(decode_chunked_body(b"5\r\nab").is_none());
}

#[test]
fn json_path_in_chunked_body_maps_back() {
    let msg = b"HTTP/1.1 200 OK\r\nTransfer-Encoding: chunked\r\n\r\n1b\r\n{\"screen_name\":\"test_user\"}\r\n0\r\n\r\n";
    let m = parse_http_parts(msg).unwrap();
    let r = resolve(&json_value_handler("screen_name"), msg, &m).unwrap();
    assert_eq!(&msg[r.start..r.end], b"\"test_user\"");
}

#[test]
fn json_path_across_chunks_fails() {
    let msg = b"HTTP/1.1 200 OK\r\nTransfer-Encoding: chunked\r\n\r\n13\r\n{\"screen_name\":\"tes\r\n8\r\nt_user\"}\r\n0\r\n\r\n";
    let m = parse_http_parts(msg).unwrap();
    assert!(resolve(&json_value_handler("screen_name"), msg, &m).is_none());
    let mut key_only = json_value_handler("screen_name");
    key_only.params = key_only.params.map(|p| HandlerParams { hide_key: None, hide_value: Some(true), ..p });
    let r = resolve(&key_only, msg, &m).unwrap();
    assert_eq!(&msg[r.start..r.end], b"\"screen_name\"");
}
