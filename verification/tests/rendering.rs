use percent_encoding::percent_decode_str;
use sublink::model::proxy::hysteria2::{Hysteria2, RenderError};
use sublink::model::proxy::Proxy;

fn bare(name: &str, port: Option<u16>, ports: Option<&str>) -> Hysteria2 {
    Hysteria2 {
        name: name.to_string(),
        password: "pw".to_string(),
        server: "1.2.3.4".to_string(),
        port,
        ports: ports.map(|p| p.to_string()),
        sni: None,
        up: None,
        down: None,
        alpn: None,
        fingerprint: None,
        obfs: None,
        obfs_password: None,
        skip_cert_verify: None,
    }
}

fn full() -> Hysteria2 {
    Hysteria2 {
        name: "node".to_string(),
        password: "secret".to_string(),
        server: "example.org".to_string(),
        port: Some(8443),
        ports: None,
        sni: Some("sni.example.org".to_string()),
        up: Some("30 Mbps".to_string()),
        down: Some("200 Mbps".to_string()),
        alpn: Some(vec!["h3".to_string(), "h2".to_string()]),
        fingerprint: Some("ab:cd".to_string()),
        obfs: Some("salamander".to_string()),
        obfs_password: Some("mask".to_string()),
        skip_cert_verify: Some(false),
    }
}

fn port_segment(link: &str) -> u16 {
    let rest = link.strip_prefix("hysteria2://pw@1.2.3.4:").unwrap();
    let end = rest.find(|c: char| !c.is_ascii_digit()).unwrap();
    rest[..end].parse().unwrap()
}

#[test]
fn renders_the_documented_example() {
    let mut d = bare("A B", Some(443), None);
    d.sni = Some("x.com".to_string());
    d.skip_cert_verify = Some(true);
    assert_eq!(
        d.into_string(),
        Ok("hysteria2://pw@1.2.3.4:443?sni=x.com&insecure=1#A%20B".to_string())
    );
}

#[test]
fn fixed_port_wins_over_port_expression() {
    let d = bare("n", Some(443), Some("100-101"));
    assert_eq!(d.into_string(), Ok("hysteria2://pw@1.2.3.4:443#n".to_string()));
    let d = bare("n", Some(0), Some("abc"));
    assert_eq!(d.into_string(), Ok("hysteria2://pw@1.2.3.4:0#n".to_string()));
    let d = bare("n", Some(65535), None);
    assert_eq!(d.into_string(), Ok("hysteria2://pw@1.2.3.4:65535#n".to_string()));
}

#[test]
fn fixed_port_is_the_only_candidate() {
    let d = bare("n", Some(443), Some("100-101"));
    assert_eq!(d.port_candidates(), Ok(vec![443]));
}

#[test]
fn random_port_stays_in_range() {
    let d = bare("n", None, Some("100-101"));
    let mut seen_100 = false;
    let mut seen_101 = false;
    for _ in 0..400 {
        let link = d.clone().into_string().unwrap();
        let port = port_segment(&link);
        assert!(port == 100 || port == 101);
        assert_eq!(link, format!("hysteria2://pw@1.2.3.4:{}#n", port));
        seen_100 = seen_100 || port == 100;
        seen_101 = seen_101 || port == 101;
    }
    assert!(seen_100 && seen_101);
}

#[test]
fn random_port_is_a_member_of_the_pool() {
    let d = bare("n", None, Some("8080-8082,9000"));
    let pool = d.port_candidates().unwrap();
    assert_eq!(pool, vec![8080, 8081, 8082, 9000]);
    for _ in 0..200 {
        let link = d.clone().into_string().unwrap();
        assert!(pool.contains(&port_segment(&link)));
    }
}

#[test]
fn every_candidate_has_its_own_link() {
    let d = bare("n", None, Some("8080-8082,9000"));
    let links: Vec<String> =
        d.port_candidates().unwrap().into_iter().map(|p| d.render_with_port(p)).collect();
    assert_eq!(
        links,
        vec![
            "hysteria2://pw@1.2.3.4:8080#n".to_string(),
            "hysteria2://pw@1.2.3.4:8081#n".to_string(),
            "hysteria2://pw@1.2.3.4:8082#n".to_string(),
            "hysteria2://pw@1.2.3.4:9000#n".to_string(),
        ]
    );
}

#[test]
fn malformed_ports_fail() {
    let d = bare("n", None, Some("abc"));
    assert_eq!(d.clone().into_string(), Err(RenderError::InvalidPorts));
    assert_eq!(d.port_candidates(), Err(RenderError::InvalidPorts));
}

#[test]
fn missing_port_and_ports_fail() {
    let d = bare("n", None, None);
    assert_eq!(d.clone().into_string(), Err(RenderError::MissingPort));
    assert_eq!(d.port_candidates(), Err(RenderError::MissingPort));
}

#[test]
fn empty_pool_fails() {
    let d = bare("n", None, Some("5-3"));
    assert_eq!(d.clone().into_string(), Err(RenderError::NoCandidates));
    assert_eq!(d.port_candidates(), Err(RenderError::NoCandidates));
}

#[test]
fn one_bad_item_spoils_the_expression() {
    for expr in ["", "80,", ",80", "80,,81", "1-2-3", "80,x", "x,80", "80-", "-80", "80/", "65536"]
    {
        let d = bare("n", None, Some(expr));
        assert_eq!(d.into_string(), Err(RenderError::InvalidPorts), "{:?}", expr);
    }
}

#[test]
fn repeated_renders_are_identical_with_fixed_port() {
    let d = full();
    let first = d.clone().into_string().unwrap();
    for _ in 0..20 {
        assert_eq!(d.clone().into_string().unwrap(), first);
    }
}

#[test]
fn repeated_renders_differ_only_in_port() {
    let mut d = full();
    d.port = None;
    d.ports = Some("1000-1999".to_string());
    let head = "hysteria2://secret@example.org:";
    let tail = "?sni=sni.example.org&obfs=salamander&obfs-password=mask&alpn=h3,h2&insecure=0\
                &pinSHA256=ab:cd&up=30 Mbps&down=200 Mbps#node";
    for _ in 0..100 {
        let link = d.clone().into_string().unwrap();
        let middle = link.strip_prefix(head).unwrap().strip_suffix(tail).unwrap();
        let port: u16 = middle.parse().unwrap();
        assert!((1000..=1999).contains(&port));
        assert_eq!(middle, port.to_string());
    }
}

#[test]
fn all_parameters_come_in_fixed_order() {
    assert_eq!(
        full().into_string(),
        Ok("hysteria2://secret@example.org:8443?sni=sni.example.org&obfs=salamander\
            &obfs-password=mask&alpn=h3,h2&insecure=0&pinSHA256=ab:cd&up=30 Mbps\
            &down=200 Mbps#node"
            .to_string())
    );
}

#[test]
fn absent_fields_leave_no_fragment() {
    let link = bare("n", Some(1), None).into_string().unwrap();
    assert_eq!(link, "hysteria2://pw@1.2.3.4:1#n");
    assert!(!link.contains('?'));
    assert!(!link.contains('&'));
    assert!(!link.contains('='));
}

#[test]
fn each_field_alone_gives_one_fragment() {
    let some = |s: &str| Some(s.to_string());
    let cases: Vec<(fn(&mut Hysteria2, Option<String>), &str)> = vec![
        (|d, v| d.sni = v, "sni=v"),
        (|d, v| d.obfs = v, "obfs=v"),
        (|d, v| d.obfs_password = v, "obfs-password=v"),
        (|d, v| d.alpn = v.map(|s| vec![s]), "alpn=v"),
        (|d, v| d.fingerprint = v, "pinSHA256=v"),
        (|d, v| d.up = v, "up=v"),
        (|d, v| d.down = v, "down=v"),
    ];
    for (set, fragment) in cases {
        let mut d = bare("n", Some(1), None);
        set(&mut d, some("v"));
        assert_eq!(d.into_string().unwrap(), format!("hysteria2://pw@1.2.3.4:1?{}#n", fragment));
    }
    let mut d = bare("n", Some(1), None);
    d.skip_cert_verify = Some(false);
    assert_eq!(d.into_string().unwrap(), "hysteria2://pw@1.2.3.4:1?insecure=0#n");
    let mut d = bare("n", Some(1), None);
    d.skip_cert_verify = Some(true);
    assert_eq!(d.into_string().unwrap(), "hysteria2://pw@1.2.3.4:1?insecure=1#n");
}

#[test]
fn skipping_a_field_keeps_the_order_of_the_rest() {
    let mut d = full();
    d.obfs = None;
    d.alpn = None;
    d.up = None;
    assert_eq!(
        d.into_string().unwrap(),
        "hysteria2://secret@example.org:8443?sni=sni.example.org&obfs-password=mask\
         &insecure=0&pinSHA256=ab:cd&down=200 Mbps#node"
    );
}

#[test]
fn empty_alpn_list_gives_an_empty_value() {
    let mut d = bare("n", Some(1), None);
    d.alpn = Some(vec![]);
    assert_eq!(d.into_string().unwrap(), "hysteria2://pw@1.2.3.4:1?alpn=#n");
}

#[test]
fn name_is_percent_encoded() {
    let link = bare("A B", Some(1), None).into_string().unwrap();
    assert_eq!(link, "hysteria2://pw@1.2.3.4:1#A%20B");
    let link = bare("a-b_c.d~e", Some(1), None).into_string().unwrap();
    assert_eq!(link, "hysteria2://pw@1.2.3.4:1#a%2Db%5Fc%2Ed%7Ee");
    let link = bare("\u{e9}", Some(1), None).into_string().unwrap();
    assert_eq!(link, "hysteria2://pw@1.2.3.4:1#%C3%A9");
    let link = bare("", Some(1), None).into_string().unwrap();
    assert_eq!(link, "hysteria2://pw@1.2.3.4:1#");
    let link = bare("Az09", Some(1), None).into_string().unwrap();
    assert_eq!(link, "hysteria2://pw@1.2.3.4:1#Az09");
}

#[test]
fn name_round_trips_through_the_fragment() {
    let names = [
        "plain",
        "with space",
        "\u{9999}\u{6e2f} 01 | \u{1f1ed}\u{1f1f0}",
        "#?&=/:@%+",
        "100% #1 \"best\" <node>",
        "\u{0}\u{7f}\t\n",
        "%41%zz%",
        "",
    ];
    for name in names {
        let mut d = bare(name, Some(443), None);
        d.password = "p#w".to_string();
        d.sni = Some("a#b".to_string());
        let link = d.into_string().unwrap();
        let fragment = &link[link.rfind('#').unwrap() + 1..];
        assert!(fragment.bytes().all(|b| b.is_ascii_alphanumeric() || b == b'%'));
        let decoded = percent_decode_str(fragment).decode_utf8().unwrap();
        assert_eq!(decoded, name);
    }
}

#[test]
fn password_and_server_are_written_as_they_are() {
    let mut d = bare("n", Some(1), None);
    d.password = "p w/?".to_string();
    d.server = "[::1]".to_string();
    assert_eq!(d.into_string().unwrap(), "hysteria2://p w/?@[::1]:1#n");
}

#[test]
fn dispatch_renders_the_variant() {
    let d = bare("A B", Some(443), None);
    assert_eq!(
        Proxy::Hysteria2(d).into_string(),
        Ok("hysteria2://pw@1.2.3.4:443#A%20B".to_string())
    );
    let d = bare("n", None, Some("abc"));
    assert_eq!(Proxy::Hysteria2(d).into_string(), Err(RenderError::InvalidPorts));
}
