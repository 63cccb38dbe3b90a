use vertex::ipv4::parse_ipv4;
use vertex::ipv6::parse_ipv6;
use vertex::paths::{root_from, workspace_root};
use vertex::SEEDS;

fn chars(s: &str) -> Vec<char> {
    s.chars().collect()
}

#[test]
fn parses_dotted_decimal_addresses() {
    assert_eq!(parse_ipv4(&chars("127.0.0.1")), Some((127, 0, 0, 1)));
    assert_eq!(parse_ipv4(&chars("255.255.255.255")), Some((255, 255, 255, 255)));
    assert_eq!(parse_ipv4(&chars("0.0.0.0")), Some((0, 0, 0, 0)));
    for bad in ["01.2.3.4", "256.1.1.1", "1.2.3", "1.2.3.4.5", "1..3.4", "a.b.c.d", "", "1.2.3.4 ", "+1.2.3.4"] {
        assert_eq!(parse_ipv4(&chars(bad)), None, "{bad}");
    }
}

#[test]
fn finds_the_workspace_root() {
    assert_eq!(workspace_root("/home/me/vertex/apps/crawler-rs"), "/home/me/vertex");
    assert_eq!(workspace_root("/"), "/");
    assert_eq!(workspace_root("crawler"), "crawler");
    assert_eq!(workspace_root(""), "");
    assert_eq!(workspace_root("/apps"), "/apps");
    assert_eq!(workspace_root("/a/b"), "/");
    assert_eq!(workspace_root("/srv/Vertex/apps/api-rs"), "/srv/Vertex");
    assert_eq!(workspace_root("a/b"), "");
    assert_eq!(workspace_root("a/b/c"), "a");
    assert_eq!(root_from("/x/y", Some("/".to_string())), "/");
    assert_eq!(root_from("/x/y", None), "/x/y");
}

#[test]
fn seeds_are_crawlable() {
    assert_eq!(SEEDS.len(), 12);
    for seed in SEEDS {
        assert!(vertex::crawler::is_crawlable_url(seed), "{seed}");
    }
}

#[test]
fn parses_ipv6_text() {
    assert_eq!(parse_ipv6(&chars("::1")), Some(vec![0, 0, 0, 0, 0, 0, 0, 1]));
    assert_eq!(parse_ipv6(&chars("::")), Some(vec![0; 8]));
    assert_eq!(parse_ipv6(&chars("fe80::1:2")), Some(vec![0xfe80, 0, 0, 0, 0, 0, 1, 2]));
    assert_eq!(parse_ipv6(&chars("1:2:3:4:5:6:7:8")), Some(vec![1, 2, 3, 4, 5, 6, 7, 8]));
    assert_eq!(parse_ipv6(&chars("1::")), Some(vec![1, 0, 0, 0, 0, 0, 0, 0]));
    assert_eq!(
        parse_ipv6(&chars("::ffff:127.0.0.1")),
        Some(vec![0, 0, 0, 0, 0, 0xffff, 0x7f00, 1])
    );
    for bad in ["", ":", ":::", "1:2:3:4:5:6:7", "1:2:3:4:5:6:7:8:9", "1::2::3", "12345::", "g::", "1:2:3:4:5:6:7::8", ":1::", "1.2.3.4::"] {
        assert_eq!(parse_ipv6(&chars(bad)), None, "{bad}");
    }
}
