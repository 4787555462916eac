use max_strike::model::Server;
use max_strike::subscription::{
    base64_decode, decode_if_base64, is_base64, parse_subscription_content,
    parse_subscription_content_string, subscription_content_servers,
};

fn summary(servers: &[Server]) -> Vec<(String, String, u16, String)> {
    servers
        .iter()
        .map(|s| (s.protocol.clone(), s.address.clone(), s.port, s.name.clone()))
        .collect()
}

const LINKS: &str = "vless://id1@one.example:443?sni=one#One\ntrojan://pw@two.example:8443#Two\nhy2://auth@three.example:443#Three";

#[test]
fn lines_with_links_become_servers_in_order() {
    let servers = parse_subscription_content(LINKS);
    assert_eq!(
        summary(&servers),
        vec![
            ("vless".to_string(), "one.example".to_string(), 443, "One".to_string()),
            ("trojan".to_string(), "two.example".to_string(), 8443, "Two".to_string()),
            ("hysteria2".to_string(), "three.example".to_string(), 443, "Three".to_string()),
        ]
    );
}

#[test]
fn comments_blank_lines_and_unknown_schemes_are_skipped() {
    let content = "# my list\r\n\r\n   \n// old servers\n  vless://id@a.example:1#A  \r\nss://x@y:1\nnot a link\n\ttrojan://p@b.example:2#B\n";
    let servers = parse_subscription_content(content);
    assert_eq!(
        summary(&servers),
        vec![
            ("vless".to_string(), "a.example".to_string(), 1, "A".to_string()),
            ("trojan".to_string(), "b.example".to_string(), 2, "B".to_string()),
        ]
    );
}

#[test]
fn empty_content_has_no_servers() {
    assert!(parse_subscription_content("").is_empty());
    assert!(parse_subscription_content("\n\n# nothing\n").is_empty());
}

#[test]
fn subscriptions_concatenate() {
    let a = "vless://id1@one.example:443#One\n# comment";
    let b = "trojan://pw@two.example:8443#Two";
    let joined = format!("{a}\n{b}");
    let mut expected = summary(&parse_subscription_content(a));
    expected.extend(summary(&parse_subscription_content(b)));
    assert_eq!(summary(&parse_subscription_content(&joined)), expected);
}

#[test]
fn base64_detection() {
    let encoded = "dmxlc3M6Ly9pZDFAb25lLmV4YW1wbGU6NDQzP3NuaT1vbmUjT25lCnRyb2phbjovL3B3QHR3by5leGFtcGxlOjg0NDMjVHdv";
    assert!(is_base64(encoded));
    assert!(is_base64(&format!("{encoded}\n")));
    assert!(!is_base64("aGVsbG8="));
    assert!(!is_base64(LINKS));
    assert!(!is_base64(&"A".repeat(50)));
    assert!(is_base64(&"A".repeat(51)));
    assert!(!is_base64(&format!("{}-", "A".repeat(60))));
}

#[test]
fn base64_detection_counts_bytes() {
    // 26 two-byte characters are 52 bytes but only 26 characters; they are
    // not Base64 characters, so the content is still not Base64.
    assert!(!is_base64(&"é".repeat(26)));
    // Unicode whitespace is allowed among Base64 characters.
    assert!(is_base64(&format!("{}\u{3000}{}", "A".repeat(30), "B".repeat(30))));
}

#[test]
fn base64_decoding() {
    assert_eq!(base64_decode("aGVsbG8=").unwrap(), "hello");
    assert_eq!(base64_decode("  aGVsbA==\n").unwrap(), "hell");
    assert_eq!(base64_decode("aGVs").unwrap(), "hel");
    assert!(base64_decode("aGVsbG8").is_err());
    assert!(base64_decode("aGVs bG8=").is_err());
    assert!(base64_decode("@@@@").is_err());
    assert_eq!(base64_decode("/w==").unwrap(), "\u{FFFD}");
}

#[test]
fn base64_subscription_is_decoded_before_parsing() {
    let encoded = "dmxlc3M6Ly9pZDFAb25lLmV4YW1wbGU6NDQzP3NuaT1vbmUjT25lCnRyb2phbjovL3B3QHR3by5leGFtcGxlOjg0NDMjVHdv".to_string();
    assert_eq!(
        decode_if_base64(encoded.clone()),
        "vless://id1@one.example:443?sni=one#One\ntrojan://pw@two.example:8443#Two"
    );
    let servers = subscription_content_servers(encoded);
    assert_eq!(
        summary(&servers),
        vec![
            ("vless".to_string(), "one.example".to_string(), 443, "One".to_string()),
            ("trojan".to_string(), "two.example".to_string(), 8443, "Two".to_string()),
        ]
    );
}

#[test]
fn base64_looking_content_that_does_not_decode_is_kept() {
    let content = "A".repeat(53);
    assert!(is_base64(&content));
    assert_eq!(decode_if_base64(content.clone()), content);
}

#[test]
fn plain_subscription_is_kept() {
    assert_eq!(decode_if_base64(LINKS.to_string()), LINKS);
}

#[test]
fn pasted_content_without_servers_is_refused() {
    let err = parse_subscription_content_string("# nothing here\n".to_string()).unwrap_err();
    assert_eq!(err, "Не удалось найти ни одного сервера");
    assert!(parse_subscription_content_string(String::new()).is_err());
}

#[test]
fn pasted_content_with_servers_is_read() {
    let servers = parse_subscription_content_string(LINKS.to_string()).unwrap();
    assert_eq!(servers.len(), 3);
    assert_eq!(servers[2].protocol, "hysteria2");
}

#[test]
fn base64_of_utf8_text_reads_as_the_text() {
    assert_eq!(base64_decode("0KHQtdGA0LLQtdGAICMx").unwrap(), "Сервер #1");
}
