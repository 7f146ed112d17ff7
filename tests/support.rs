use reveal_core::{find_ranges, split_host_port, ByteRange, Config, WebhookConfig};

fn hook(url: &str) -> WebhookConfig {
    WebhookConfig { url: url.to_string(), headers: vec![] }
}

fn br(start: usize, end: usize) -> ByteRange {
    ByteRange { start, end }
}

#[test]
fn webhook_lookup_prefers_exact_name() {
    let config = Config {
        webhooks: vec![
            ("*".to_string(), hook("http://any")),
            ("swapi.dev".to_string(), hook("http://swapi")),
        ],
    };
    assert_eq!(config.get_webhook(&"swapi.dev".to_string()).unwrap().url, "http://swapi");
    assert_eq!(config.get_webhook(&"other.dev".to_string()).unwrap().url, "http://any");
    let strict = Config { webhooks: vec![("swapi.dev".to_string(), hook("http://swapi"))] };
    assert!(strict.get_webhook(&"other.dev".to_string()).is_none());
}

#[test]
fn proxy_target_splits_host_and_port() {
    assert_eq!(split_host_port(b"swapi.dev"), (9, 443));
    assert_eq!(split_host_port(b"httpbin.org:80"), (11, 80));
    assert_eq!(split_host_port(b"a:99999"), (1, 443));
    assert_eq!(split_host_port(b"a:"), (1, 443));
    assert_eq!(split_host_port(b"a:8x"), (1, 443));
    assert_eq!(split_host_port(b"a:65535:1"), (1, 65535));
    assert_eq!(split_host_port(b"h:+80"), (1, 80));
    assert_eq!(split_host_port(b"h:+"), (1, 443));
    assert_eq!(split_host_port(b"h:++80"), (1, 443));
}

#[test]
fn secrets_split_into_private_and_public_ranges() {
    let seq = b"token=abc; other=abc; key=xy";
    let secrets = vec![b"abc".to_vec(), b"xy".to_vec()];
    let (public, private) = find_ranges(seq, &secrets);
    assert_eq!(private, vec![br(6, 9), br(17, 20), br(26, 28)]);
    assert_eq!(public, vec![br(0, 6), br(9, 17), br(20, 26)]);
}

#[test]
fn secrets_sorted_before_gaps_are_taken() {
    let seq = b"xyab__ab";
    let secrets = vec![b"ab".to_vec(), b"xy".to_vec()];
    let (public, private) = find_ranges(seq, &secrets);
    assert_eq!(private, vec![br(2, 4), br(6, 8), br(0, 2)]);
    assert_eq!(public, vec![br(4, 6)]);
    let (public, private) = find_ranges(b"plain", &vec![]);
    assert!(private.is_empty());
    assert_eq!(public, vec![br(0, 5)]);
}

#[test]
fn nested_secrets_leave_no_public_gap_inside() {
    let (public, private) = find_ranges(b"abcd", &vec![b"abc".to_vec(), b"b".to_vec()]);
    assert_eq!(private, vec![br(0, 3), br(1, 2)]);
    assert_eq!(public, vec![br(3, 4)]);
}
