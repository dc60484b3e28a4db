use sublink::default_config::CLASH;
use sublink::model::proxy::decimal::{append_port, parse_port, port_text};
use sublink::model::proxy::ports::parse_ports;
use sublink::model::proxy::tool::{chars_of, encode_alpn, join, param};
use sublink::model::SubscriptionUserinfo;

#[test]
fn port_text_is_plain_decimal() {
    assert_eq!(port_text(0), "0");
    assert_eq!(port_text(7), "7");
    assert_eq!(port_text(10), "10");
    assert_eq!(port_text(443), "443");
    assert_eq!(port_text(8080), "8080");
    assert_eq!(port_text(65535), "65535");
}

#[test]
fn port_text_agrees_with_std_for_every_port() {
    for port in 0..=u16::MAX {
        assert_eq!(port_text(port), port.to_string());
    }
}

#[test]
fn append_port_keeps_what_was_there() {
    let mut out = "host:".to_string();
    append_port(&mut out, 1080);
    assert_eq!(out, "host:1080");
}

#[test]
fn parse_port_reads_decimal() {
    assert_eq!(parse_port("0"), Some(0));
    assert_eq!(parse_port("80"), Some(80));
    assert_eq!(parse_port("65535"), Some(65535));
    assert_eq!(parse_port("+443"), Some(443));
    assert_eq!(parse_port("00080"), Some(80));
    assert_eq!(parse_port("000000000000000000000000000001"), Some(1));
}

#[test]
fn parse_port_rejects_the_rest() {
    for text in [
        "", "+", "-", "-1", "+-1", "++1", "65536", "70000", "99999999999999999999", " 80", "80 ",
        "8 0", "8_0", "0x50", "80.0", "abc", "\u{663}", "1\u{0}",
    ] {
        assert_eq!(parse_port(text), None, "{:?}", text);
    }
}

#[test]
fn parse_port_agrees_with_std() {
    let samples = [
        "", "+", "-", "0", "+0", "-0", "1", "+1", "-1", "007", "65535", "65536", "+65535",
        "+65536", "4294967296", "4294967376", "18446744073709551616", "12a", "a12", "1 2", "\t1",
        "1\n", "\u{ff11}", "1.5", "1e3",
    ];
    for text in samples {
        assert_eq!(parse_port(text), text.parse::<u16>().ok(), "{:?}", text);
    }
    for port in 0..=u16::MAX {
        assert_eq!(parse_port(&port.to_string()), Some(port));
    }
}

#[test]
fn parse_ports_expands_items_in_order() {
    assert_eq!(parse_ports("8080-8082,9000"), Some(vec![8080, 8081, 8082, 9000]));
    assert_eq!(parse_ports("443"), Some(vec![443]));
    assert_eq!(parse_ports("1/2,3"), Some(vec![1, 2, 3]));
    assert_eq!(parse_ports("3,1,2"), Some(vec![3, 1, 2]));
    assert_eq!(parse_ports("5,5,4-6"), Some(vec![5, 5, 4, 5, 6]));
    assert_eq!(parse_ports("7-7"), Some(vec![7]));
    assert_eq!(parse_ports("65534-65535"), Some(vec![65534, 65535]));
    assert_eq!(parse_ports("+1-+2"), Some(vec![1, 2]));
}

#[test]
fn parse_ports_keeps_reversed_ranges_empty() {
    assert_eq!(parse_ports("5-3"), Some(vec![]));
    assert_eq!(parse_ports("5-3,7"), Some(vec![7]));
}

#[test]
fn parse_ports_covers_the_whole_range() {
    let pool = parse_ports("0-65535").unwrap();
    assert_eq!(pool.len(), 65536);
    assert_eq!(pool[0], 0);
    assert_eq!(pool[65535], 65535);
    assert!(pool.windows(2).all(|w| w[0] + 1 == w[1]));
}

#[test]
fn parse_ports_rejects_malformed_items() {
    for expr in [
        "", ",", "/", "80,", ",80", "80//81", "abc", "80-", "-80", "-", "1-2-3", "1--2", "80;81",
        "80, 81", "80-65536", "1,2,x",
    ] {
        assert_eq!(parse_ports(expr), None, "{:?}", expr);
    }
}

#[test]
fn param_builds_one_fragment() {
    assert_eq!(param("sni").apply("x.com"), "sni=x.com");
    assert_eq!(param("up").apply(""), "up=");
    assert_eq!(param("k").apply("a=b&c"), "k=a=b&c");
}

#[test]
fn param_skips_absent_values() {
    let mut fragments = vec!["a=1".to_string()];
    param("b").apply_optional(&None, &mut fragments);
    assert_eq!(fragments, vec!["a=1".to_string()]);
    param("c").apply_optional(&Some("3".to_string()), &mut fragments);
    assert_eq!(fragments, vec!["a=1".to_string(), "c=3".to_string()]);
}

#[test]
fn join_puts_separator_between_parts() {
    let parts = vec!["a".to_string(), "b".to_string(), "c".to_string()];
    assert_eq!(join(&parts, "&"), "a&b&c");
    assert_eq!(join(&parts, ""), "abc");
    assert_eq!(join(&parts[..1].to_vec(), "&"), "a");
    assert_eq!(join(&vec![], "&"), "");
    assert_eq!(join(&vec!["".to_string(), "".to_string()], ", "), ", ");
}

#[test]
fn encode_alpn_joins_with_commas() {
    assert_eq!(encode_alpn(&vec!["h3".to_string(), "h2".to_string()]), "h3,h2");
    assert_eq!(encode_alpn(&vec!["h3".to_string()]), "h3");
    assert_eq!(encode_alpn(&vec![]), "");
}

#[test]
fn chars_of_lists_characters() {
    assert_eq!(chars_of("a\u{e9}\u{1f600}"), vec!['a', '\u{e9}', '\u{1f600}']);
    assert_eq!(chars_of(""), Vec::<char>::new());
}

#[test]
fn userinfo_holds_wide_counters() {
    let info = SubscriptionUserinfo {
        upload: 1 << 70,
        download: -1,
        total: i128::MAX,
        expire: i128::MIN,
    };
    assert_eq!(info.upload, 1180591620717411303424);
    assert_eq!(info.download, -1);
    assert_eq!(info.total, i128::MAX);
    assert_eq!(info.expire, i128::MIN);
    assert_eq!(info, info.clone());
}

#[test]
fn default_profile_is_the_fixed_document() {
    assert!(CLASH.starts_with("mode: rule\n"));
    assert!(CLASH.ends_with("MATCH,\u{5176}\u{4ed6}"));
    assert_eq!(CLASH.lines().count(), 138);
}
