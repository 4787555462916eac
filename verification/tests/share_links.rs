use max_strike::model::Server;
use max_strike::share_link::{
    decode_name, parse_hysteria2, parse_query_params, parse_share_link, parse_trojan, parse_vless,
};

fn is_uuid_v4_text(s: &str) -> bool {
    let b = s.as_bytes();
    if b.len() != 36 {
        return false;
    }
    for (i, c) in b.iter().enumerate() {
        let ok = if i == 8 || i == 13 || i == 18 || i == 23 {
            *c == b'-'
        } else {
            c.is_ascii_digit() || (b'a'..=b'f').contains(c)
        };
        if !ok {
            return false;
        }
    }
    b[14] == b'4' && matches!(b[19], b'8' | b'9' | b'a' | b'b')
}

fn opt(s: &Option<String>) -> Option<&str> {
    s.as_deref()
}

#[test]
fn vless_link_with_reality_parameters() {
    let link = "vless://11111111-2222-3333-4444-555555555555@example.com:443?security=reality&sni=www.google.com&fp=chrome&pbk=PUBKEY&sid=ab12&type=tcp&flow=xtls-rprx-vision#My%20Server";
    let s: Server = parse_share_link(link).unwrap();
    assert_eq!(s.protocol, "vless");
    assert_eq!(s.uuid, "11111111-2222-3333-4444-555555555555");
    assert_eq!(s.address, "example.com");
    assert_eq!(s.port, 443);
    assert_eq!(s.name, "My Server");
    assert_eq!(opt(&s.security), Some("reality"));
    assert_eq!(opt(&s.sni), Some("www.google.com"));
    assert_eq!(opt(&s.fingerprint), Some("chrome"));
    assert_eq!(opt(&s.public_key), Some("PUBKEY"));
    assert_eq!(opt(&s.short_id), Some("ab12"));
    assert_eq!(opt(&s.net_type), Some("tcp"));
    assert_eq!(opt(&s.flow), Some("xtls-rprx-vision"));
    assert_eq!(s.ping, None);
    assert_eq!(s.status, "standby");
    assert!(is_uuid_v4_text(&s.id));
}

#[test]
fn vless_link_without_name_or_query() {
    let s = parse_vless("vless://abc@10.0.0.1:8443").unwrap();
    assert_eq!(s.name, "VLESS Server");
    assert_eq!(s.address, "10.0.0.1");
    assert_eq!(s.port, 8443);
    assert_eq!(s.uuid, "abc");
    assert_eq!(s.sni, None);
    assert_eq!(s.flow, None);
    assert_eq!(s.net_type, None);
}

#[test]
fn each_parsed_server_gets_a_fresh_id() {
    let a = parse_share_link("vless://abc@host:1#a").unwrap();
    let b = parse_share_link("vless://abc@host:1#a").unwrap();
    assert!(is_uuid_v4_text(&a.id));
    assert!(is_uuid_v4_text(&b.id));
    assert_ne!(a.id, b.id);
}

#[test]
fn trojan_link_keeps_only_sni_and_type() {
    let s = parse_trojan("trojan://secret@trojan.example.org:443?sni=t.example.org&type=ws&security=tls&flow=x#Trojan%201").unwrap();
    assert_eq!(s.protocol, "trojan");
    assert_eq!(s.uuid, "secret");
    assert_eq!(s.address, "trojan.example.org");
    assert_eq!(s.name, "Trojan 1");
    assert_eq!(opt(&s.sni), Some("t.example.org"));
    assert_eq!(opt(&s.net_type), Some("ws"));
    assert_eq!(s.flow, None);
    assert_eq!(s.security, None);
    assert_eq!(s.public_key, None);
    assert_eq!(s.short_id, None);
    assert_eq!(s.fingerprint, None);
}

#[test]
fn trojan_link_default_name() {
    let s = parse_share_link("trojan://pw@h:80").unwrap();
    assert_eq!(s.name, "Trojan Server");
}

#[test]
fn hysteria2_links_in_both_spellings() {
    let a = parse_hysteria2("hysteria2://auth@hy.example.net:8443?sni=hy.example.net&type=udp").unwrap();
    let b = parse_share_link("hy2://auth@hy.example.net:8443?sni=hy.example.net").unwrap();
    for s in [&a, &b] {
        assert_eq!(s.protocol, "hysteria2");
        assert_eq!(s.uuid, "auth");
        assert_eq!(s.address, "hy.example.net");
        assert_eq!(s.port, 8443);
        assert_eq!(opt(&s.sni), Some("hy.example.net"));
        assert_eq!(s.net_type, None);
        assert_eq!(s.name, "Hysteria2 Server");
    }
}

#[test]
fn unsupported_schemes_give_nothing() {
    assert!(parse_share_link("ss://abc@host:8388#x").is_none());
    assert!(parse_share_link("vmess://eyJhZGQiOiJ4In0=").is_none());
    assert!(parse_share_link("").is_none());
    assert!(parse_share_link(" vless://a@b:1").is_none());
}

#[test]
fn malformed_links_give_nothing() {
    assert!(parse_share_link("vless://nohost:443").is_none());
    assert!(parse_share_link("vless://id@hostwithoutport").is_none());
    assert!(parse_share_link("vless://id@host:").is_none());
    assert!(parse_share_link("vless://id@host:65536").is_none());
    assert!(parse_share_link("vless://id@host:-1").is_none());
    assert!(parse_share_link("vless://id@host:44a").is_none());
    assert!(parse_share_link("vless://id@host:+").is_none());
}

#[test]
fn port_edge_cases() {
    assert_eq!(parse_share_link("vless://id@host:65535").unwrap().port, 65535);
    assert_eq!(parse_share_link("vless://id@host:0").unwrap().port, 0);
    assert_eq!(parse_share_link("vless://id@host:+443").unwrap().port, 443);
    assert_eq!(parse_share_link("vless://id@host:00080").unwrap().port, 80);
}

#[test]
fn ipv6_address_keeps_its_colons() {
    let s = parse_share_link("vless://id@[2001:db8::1]:443#v6").unwrap();
    assert_eq!(s.address, "[2001:db8::1]");
    assert_eq!(s.port, 443);
}

#[test]
fn credential_ends_at_first_at_sign() {
    let s = parse_share_link("trojan://user@mail@host:443").unwrap();
    assert_eq!(s.uuid, "user");
    assert_eq!(s.address, "mail@host");
}

#[test]
fn question_mark_after_fragment_belongs_to_name() {
    let s = parse_share_link("vless://id@host:443#name?sni=x").unwrap();
    assert_eq!(s.name, "name?sni=x");
    assert_eq!(s.sni, None);
}

#[test]
fn later_parameter_wins() {
    let s = parse_share_link("vless://id@host:443?sni=first&sni=second").unwrap();
    assert_eq!(opt(&s.sni), Some("second"));
    let p = parse_query_params("a=1&a=2&a=3");
    assert_eq!(p.get("a").as_deref(), Some("3"));
}

#[test]
fn query_pairs_need_an_equals_sign() {
    let p = parse_query_params("a=1&flag&c=2=3&&=empty");
    let pairs: Vec<(String, String)> =
        p.pairs.iter().map(|q| (q.key.clone(), q.value.clone())).collect();
    assert_eq!(
        pairs,
        vec![
            ("a".to_string(), "1".to_string()),
            ("c".to_string(), "2=3".to_string()),
            ("".to_string(), "empty".to_string()),
        ]
    );
    assert_eq!(p.get("flag"), None);
    assert_eq!(p.get("c").as_deref(), Some("2=3"));
    assert_eq!(p.get("missing"), None);
    assert!(parse_query_params("").pairs.is_empty());
}

#[test]
fn names_are_percent_decoded() {
    assert_eq!(decode_name("%D0%A1%D0%B5%D1%80%D0%B2%D0%B5%D1%80"), "Сервер");
    assert_eq!(decode_name("a+b"), "a+b");
    assert_eq!(decode_name("100%"), "100%");
    assert_eq!(decode_name("%zz%41"), "%zzA");
    assert_eq!(decode_name("plain"), "plain");
}

#[test]
fn names_that_do_not_decode_to_utf8_stay_as_written() {
    assert_eq!(decode_name("bad%FFname"), "bad%FFname");
    let s = parse_share_link("vless://id@host:1#%C3").unwrap();
    assert_eq!(s.name, "%C3");
}

#[test]
fn link_written_from_parts_reads_back() {
    let credential = "c0ffee";
    let address = "user@[::1]";
    let port: u16 = 2053;
    let query = "sni=a.b&fp=firefox";
    let name = "Name%20One#two";
    let link = format!("vless://{credential}@{address}:{port}?{query}#{name}");
    let s = parse_share_link(&link).unwrap();
    assert_eq!(s.uuid, credential);
    assert_eq!(s.address, address);
    assert_eq!(s.port, port);
    assert_eq!(s.name, "Name One#two");
    assert_eq!(opt(&s.sni), Some("a.b"));
    assert_eq!(opt(&s.fingerprint), Some("firefox"));
}
