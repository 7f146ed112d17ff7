use reveal_core::{process_ranges, HandlerPart, HandlerTag, HandlerType, RangeWithHandler};

fn recv_range(start: usize, end: usize) -> RangeWithHandler {
    RangeWithHandler {
        start,
        end,
        handler: HandlerTag { handler_type: HandlerType::Recv, part: HandlerPart::Headers },
    }
}

#[test]
fn test_range_mapping_with_redacted_bytes() {
    let plaintext = b"HTTP/1.1 200 OK\r\nDate: Wed, 29 Oct 2025 14:38:42 GMT\r\nContent-Type: application/json\r\n\r\n{\"screen_name\":\"test_user\"}";

    let date_header_start = 17;
    let date_header_end = 51;
    let date_header_bytes = &plaintext[date_header_start..date_header_end];

    let mut revealed = plaintext.to_vec();
    let content_type_start = 52;
    let content_type_end = 85;
    for i in content_type_start..content_type_end {
        revealed[i] = 0xFF;
    }

    let mapped_date = &revealed[date_header_start..date_header_end];
    assert_eq!(
        String::from_utf8_lossy(date_header_bytes),
        String::from_utf8_lossy(mapped_date),
        "Date header should match between plaintext and revealed"
    );

    let results = process_ranges(&vec![recv_range(date_header_start, date_header_end)], &revealed);
    assert_eq!(results[0].value, String::from_utf8_lossy(date_header_bytes));
}

#[test]
fn test_string_vs_byte_indices() {
    let text_with_emoji = "Hello 🙈 World";
    let bytes = text_with_emoji.as_bytes();

    assert_eq!(bytes.len(), 16);

    // Byte 7 lies inside the emoji, so no string slice starts there.
    let string_range = text_with_emoji.get(7..12);
    let byte_range = &bytes[7..12];

    assert_ne!(string_range.map(|s| s.as_bytes()), Some(byte_range), "String and byte ranges differ");
}

#[test]
fn test_verifier_mapping_logic() {
    let plaintext_response = b"HTTP/1.1 200 OK\r\nDate: Wed, 29 Oct 2025 14:38:42 GMT\r\nContent-Length: 30\r\n\r\n{\"screen_name\":\"test_user\"}";

    let date_value_start = 23;
    let date_value_end = 51;

    let revealed = plaintext_response.to_vec();
    let mapped_value = &revealed[date_value_start..date_value_end];

    assert_eq!(
        &plaintext_response[date_value_start..date_value_end],
        mapped_value,
        "Range should map correctly to revealed transcript"
    );

    let results = process_ranges(&vec![recv_range(date_value_start, date_value_end)], &revealed);
    assert_eq!(results[0].value.as_bytes(), mapped_value);
}
