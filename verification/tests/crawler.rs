use sha2::Digest;
use vertex::crawler::{
    check_response, check_url, extract_domain, is_crawlable_url, normalize_url, process_body,
    redirect_decision, to_hex, CrawlError, RedirectDecision, MAX_CONTENT_SIZE, MAX_REDIRECTS,
};

#[test]
fn normalizes_tracking_parameters_and_fragments() {
    assert_eq!(
        normalize_url(
            "https://example.com/a/",
            "../guide?utm_source=newsletter&id=7#intro"
        ),
        Some("https://example.com/guide?id=7".to_string())
    );
}

#[test]
fn rejects_local_and_non_web_urls() {
    assert!(!is_crawlable_url("file:///C:/secret.txt"));
    assert!(!is_crawlable_url("http://127.0.0.1:8080"));
    assert!(!is_crawlable_url("http://localhost:3000"));
    assert!(is_crawlable_url("https://www.rust-lang.org/"));
}

#[test]
fn skips_links_that_lead_nowhere() {
    let base = "https://example.com/a/";
    assert_eq!(normalize_url(base, ""), None);
    assert_eq!(normalize_url(base, "   \t\n"), None);
    assert_eq!(normalize_url(base, "#top"), None);
    assert_eq!(normalize_url(base, "javascript:void(0)"), None);
    assert_eq!(normalize_url(base, "mailto:someone@example.com"), None);
    assert_eq!(normalize_url(base, "tel:+33123456789"), None);
}

#[test]
fn trims_links_and_drops_trailing_slashes() {
    assert_eq!(
        normalize_url("https://example.com/a/", "  /docs/  "),
        Some("https://example.com/docs".to_string())
    );
    assert_eq!(
        normalize_url("https://example.com/a/", "https://other.org/"),
        Some("https://other.org".to_string())
    );
    assert_eq!(
        normalize_url("https://example.com/a/b", "c"),
        Some("https://example.com/a/c".to_string())
    );
}

#[test]
fn removes_every_tracking_parameter_in_any_case() {
    assert_eq!(
        normalize_url(
            "https://example.com/",
            "/p?UTM_Medium=x&fbclid=1&q=rust&GCLID=2&utm_campaign=y"
        ),
        Some("https://example.com/p?q=rust".to_string())
    );
    assert_eq!(
        normalize_url("https://example.com/", "/p?utm_source=a&fbclid=b"),
        Some("https://example.com/p".to_string())
    );
}

#[test]
fn reencodes_the_kept_query() {
    assert_eq!(
        normalize_url("https://example.com/", "/s?q=a+b&x=%C3%A9"),
        Some("https://example.com/s?q=a+b&x=%C3%A9".to_string())
    );
}

#[test]
fn decodes_and_reencodes_the_query() {
    assert_eq!(
        normalize_url("https://example.com/", "/s?q=a%20b&utm_term=z&lang=fr"),
        Some("https://example.com/s?q=a+b&lang=fr".to_string())
    );
}

#[test]
fn ignores_links_to_files() {
    let base = "https://example.com/";
    assert_eq!(normalize_url(base, "/logo.PNG"), None);
    assert_eq!(normalize_url(base, "/a/archive.zip"), None);
    assert_eq!(normalize_url(base, "/doc.pdf?x=1"), None);
    assert_eq!(normalize_url(base, "/movie.mp4"), None);
    assert_eq!(
        normalize_url(base, "/page.html"),
        Some("https://example.com/page.html".to_string())
    );
}

#[test]
fn refuses_links_to_local_services() {
    let base = "https://example.com/";
    assert_eq!(normalize_url(base, "http://192.168.1.1/admin"), None);
    assert_eq!(normalize_url(base, "http://LocalHost/"), None);
    assert_eq!(normalize_url(base, "ftp://example.com/file"), None);
    assert_eq!(normalize_url("not a url", "https://example.com/"), None);
}

#[test]
fn refuses_private_and_special_addresses() {
    for url in [
        "http://10.0.0.1/",
        "http://172.16.0.1/",
        "http://172.31.255.255/",
        "http://192.168.0.10/",
        "http://169.254.1.1/",
        "http://0.0.0.0/",
        "http://224.0.0.1/",
        "http://239.255.255.255/",
        "http://127.1.2.3/",
        "http://printer.local/",
        "https://user:pw@example.com/",
        "https://user@example.com/",
        "mailto:a@example.com",
        "not a url",
    ] {
        assert!(!is_crawlable_url(url), "{url}");
    }
    for url in [
        "http://172.32.0.1/",
        "http://8.8.8.8/",
        "http://240.0.0.1/",
        "https://example.local.org/",
    ] {
        assert!(is_crawlable_url(url), "{url}");
    }
}

#[test]
fn refuses_local_ipv6_addresses() {
    for url in [
        "http://[::1]:8080/",
        "http://[::]/",
        "http://[0:0:0:0:0:0:0:1]/",
        "http://[fe80::1]/",
        "http://[FEBF::abcd]/",
        "http://[fc00::1]/",
        "http://[fd12:3456::1]/",
        "http://[ff02::1]/",
        "http://[::ffff:127.0.0.1]/",
        "http://[::ffff:192.168.1.1]/",
        "http://[::ffff:a00:1]/",
    ] {
        assert!(!is_crawlable_url(url), "{url}");
    }
    for url in ["http://[2001:db8::1]/", "https://[2606:4700::1111]/", "http://[::ffff:8.8.8.8]/"] {
        assert!(is_crawlable_url(url), "{url}");
    }
    assert_eq!(normalize_url("https://example.com/", "http://[::1]/admin"), None);
}

#[test]
fn extracts_domains() {
    assert_eq!(extract_domain("https://www.rust-lang.org/learn"), "www.rust-lang.org");
    assert_eq!(extract_domain("http://8.8.8.8/"), "");
    assert_eq!(extract_domain("not a url"), "");
}

#[test]
fn admits_only_public_web_urls() {
    assert!(check_url("https://example.com/").is_ok());
    assert!(matches!(check_url("http://localhost/"), Err(CrawlError::NotCrawlable)));
}

#[test]
fn checks_the_head_of_a_response() {
    let html = Some("text/html; charset=utf-8".to_string());
    assert!(check_response(200, &html, Some(10)).is_ok());
    assert!(check_response(204, &None, None).is_ok());
    assert!(check_response(200, &Some("Application/XHTML+xml".to_string()), None).is_ok());
    assert!(matches!(check_response(404, &html, None), Err(CrawlError::HttpStatus(404))));
    assert!(matches!(check_response(301, &html, None), Err(CrawlError::HttpStatus(301))));
    match check_response(200, &Some("image/png".to_string()), None) {
        Err(CrawlError::UnsupportedType(t)) => assert_eq!(t, "image/png"),
        other => panic!("unexpected {other:?}"),
    }
    assert!(check_response(200, &html, Some(MAX_CONTENT_SIZE as u64)).is_ok());
    assert!(matches!(
        check_response(200, &html, Some(MAX_CONTENT_SIZE as u64 + 1)),
        Err(CrawlError::TooLarge)
    ));
}

#[test]
fn words_the_errors() {
    assert_eq!(CrawlError::NotCrawlable.message(), "URL non autorisée pour le crawl");
    assert_eq!(CrawlError::HttpStatus(404).message(), "HTTP erreur 404 Not Found");
    assert_eq!(
        CrawlError::HttpStatus(503).message(),
        "HTTP erreur 503 Service Unavailable"
    );
    assert_eq!(CrawlError::HttpStatus(599).message(), "HTTP erreur 599 <unknown status code>");
    assert_eq!(
        CrawlError::UnsupportedType("image/png".to_string()).message(),
        "Type non supporté : image/png"
    );
    assert_eq!(CrawlError::TooLarge.message(), "Page trop volumineuse");
}

#[test]
fn writes_bytes_in_hexadecimal() {
    assert_eq!(to_hex(&[0x00, 0x0f, 0xa5, 0xff]), "000fa5ff");
    assert_eq!(to_hex(&[]), "");
}

#[test]
fn builds_the_page_of_a_body() {
    let body = b"<html><head><title> Hello </title></head><body><nav>menu</nav>\
        <p>First   line</p><a href=\"/x\">x</a><a>no</a></body></html>";
    let res = process_body(
        "https://example.com/",
        200,
        Some("text/html".to_string()),
        body,
        12,
    )
    .unwrap();
    let page = &res.page;
    assert_eq!(res.http_code, 200);
    assert_eq!(page.url, "https://example.com/");
    assert_eq!(page.status_code, 200);
    assert_eq!(page.title, "Hello");
    assert_eq!(page.content, "First line x no");
    assert_eq!(page.links, vec!["/x".to_string()]);
    assert_eq!(page.size, body.len());
    assert_eq!(page.content_type, Some("text/html".to_string()));
    assert_eq!(page.depth, 0);
    assert_eq!(page.description, None);
    assert_eq!(page.language, None);
    assert_eq!(page.crawl_time_ms, 12);
    assert_eq!(page.hash.len(), 64);
    // SHA-256 of "First line x no"
    let expected = sha2::Sha256::digest(b"First line x no")
        .iter()
        .map(|b| format!("{b:02x}"))
        .collect::<String>();
    assert_eq!(page.hash, expected);
}

#[test]
fn hashes_an_empty_text() {
    let res = process_body("https://example.com/", 200, None, b"", 0).unwrap();
    assert_eq!(res.page.title, "Sans titre");
    assert_eq!(res.page.content, "");
    assert_eq!(
        res.page.hash,
        "e3b0c44298fc1c149afbf4c8996fb92427ae41e4649b934ca495991b7852b855"
    );
}

#[test]
fn decodes_invalid_utf8_lossily() {
    let res = process_body("https://example.com/", 200, None, b"<p>caf\xe9</p>", 0).unwrap();
    assert_eq!(res.page.content, "caf\u{fffd}");
}

#[test]
fn refuses_oversized_bodies() {
    let body = vec![b'a'; MAX_CONTENT_SIZE + 1];
    assert!(matches!(
        process_body("https://example.com/", 200, None, &body, 0),
        Err(CrawlError::TooLarge)
    ));
}

#[test]
fn follows_only_public_redirects() {
    assert!(matches!(redirect_decision("https://example.com/next", 1), RedirectDecision::Follow));
    assert!(matches!(redirect_decision("http://127.0.0.1/admin", 1), RedirectDecision::Refuse));
    assert!(matches!(redirect_decision("http://[::1]/", MAX_REDIRECTS), RedirectDecision::Refuse));
    assert!(matches!(
        redirect_decision("https://example.com/", MAX_REDIRECTS + 1),
        RedirectDecision::TooMany
    ));
}
