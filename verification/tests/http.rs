use std::time::Duration;
use webpage_info::guard::{vet_addresses, vet_parts, vet_url};
use webpage_info::http::{
    content_type_of, initial_capacity, keep_text_headers, media_type_of, BodyBuffer,
    RedirectPolicy, ResponseHead, DEFAULT_MAX_BODY_SIZE, DEFAULT_MAX_REDIRECTS,
    DEFAULT_TIMEOUT_SECS,
};
use webpage_info::net::IpAddress;
use webpage_info::resolve::UrlParts;
use webpage_info::{
    is_internal_host, is_private_ip, is_private_ipv4, is_private_ipv6, Error, HttpInfo,
    HttpOptions,
};

fn resolved(host: &str, addrs: Vec<IpAddress>) -> Result<(), Error> {
    vet_addresses(host, &addrs)
}

fn validate(url: &str, addrs: Vec<IpAddress>) -> Result<(), Error> {
    let target = vet_url(url)?;
    resolved(&target.host, addrs)
}

#[test]
fn test_default_options() {
    let options = HttpOptions::default();
    assert!(!options.allow_insecure);
    assert!(options.follow_redirects);
    assert_eq!(options.max_redirects, DEFAULT_MAX_REDIRECTS);
    assert_eq!(options.timeout, Duration::from_secs(DEFAULT_TIMEOUT_SECS));
    assert_eq!(options.max_body_size, DEFAULT_MAX_BODY_SIZE);
    assert!(options.block_private_ips);
    assert!(options.user_agent.contains("webpage-info"));
}

#[test]
fn test_builder_pattern() {
    let options = HttpOptions::new()
        .allow_insecure(true)
        .follow_redirects(false)
        .max_redirects(5)
        .timeout(Duration::from_secs(60))
        .max_body_size(1024)
        .block_private_ips(false)
        .user_agent("Custom Agent")
        .header("X-Custom", "Value");

    assert!(options.allow_insecure);
    assert!(!options.follow_redirects);
    assert_eq!(options.max_redirects, 5);
    assert_eq!(options.timeout, Duration::from_secs(60));
    assert_eq!(options.max_body_size, 1024);
    assert!(!options.block_private_ips);
    assert_eq!(options.user_agent, "Custom Agent");
    assert_eq!(options.headers.len(), 1);
}

#[test]
fn test_ssrf_blocks_localhost() {
    let result = validate("http://localhost/", vec![IpAddress::V4([127, 0, 0, 1])]);
    assert!(result.is_err());
    assert!(result.unwrap_err().to_string().contains("internal host"));
}

#[test]
fn test_ssrf_blocks_private_ip() {
    let result = validate("http://192.168.1.1/", vec![IpAddress::V4([192, 168, 1, 1])]);
    assert!(result.is_err());
    assert!(result.unwrap_err().to_string().contains("private IP"));
}

#[test]
fn test_ssrf_blocks_loopback() {
    let result = validate("http://127.0.0.1/", vec![IpAddress::V4([127, 0, 0, 1])]);
    assert!(result.is_err());
}

#[test]
fn test_ssrf_blocks_metadata_endpoint() {
    let result = validate(
        "http://169.254.169.254/",
        vec![IpAddress::V4([169, 254, 169, 254])],
    );
    assert!(result.is_err());
}

#[test]
fn test_ssrf_blocks_internal_domain() {
    let result = validate("http://server.local/", vec![]);
    assert!(result.is_err());
}

#[test]
fn test_ssrf_blocks_file_scheme() {
    let result = validate("file:///etc/passwd", vec![]);
    assert!(result.is_err());
    assert!(result
        .unwrap_err()
        .to_string()
        .contains("unsupported scheme"));
}

#[test]
fn test_ssrf_allows_public_urls() {
    let result = validate(
        "https://example.com/",
        vec![IpAddress::V4([93, 184, 216, 34])],
    );
    assert!(result.is_ok());
}

#[test]
fn test_private_ipv4_detection() {
    assert!(is_private_ipv4([127, 0, 0, 1]));
    assert!(is_private_ipv4([10, 0, 0, 1]));
    assert!(is_private_ipv4([172, 16, 0, 1]));
    assert!(is_private_ipv4([192, 168, 1, 1]));
    assert!(is_private_ipv4([169, 254, 169, 254]));
    assert!(is_private_ipv4([0, 0, 0, 0]));
    assert!(!is_private_ipv4([8, 8, 8, 8]));
    assert!(!is_private_ipv4([93, 184, 216, 34]));
}

#[test]
fn test_private_ipv6_detection() {
    assert!(is_private_ipv6([0, 0, 0, 0, 0, 0, 0, 1]));
    assert!(is_private_ipv6([0, 0, 0, 0, 0, 0, 0, 0]));
    // Link-local
    assert!(is_private_ipv6([0xfe80, 0, 0, 0, 0, 0, 0, 1]));
    // Unique local
    assert!(is_private_ipv6([0xfc00, 0, 0, 0, 0, 0, 0, 1]));
    // Public
    assert!(!is_private_ipv6([
        0x2607, 0xf8b0, 0x4004, 0x800, 0, 0, 0, 0x200e
    ]));
}

#[test]
fn ipv4_range_edges() {
    let private = [
        [127, 255, 255, 255],
        [10, 255, 255, 255],
        [172, 16, 0, 0],
        [172, 31, 255, 255],
        [192, 168, 0, 0],
        [169, 254, 0, 0],
        [255, 255, 255, 255],
        [192, 0, 2, 1],
        [198, 51, 100, 7],
        [203, 0, 113, 255],
        [0, 1, 2, 3],
        [224, 0, 0, 1],
        [240, 0, 0, 1],
    ];
    for a in private {
        assert!(is_private_ipv4(a), "{:?}", a);
    }
    let public = [
        [1, 1, 1, 1],
        [9, 255, 255, 255],
        [11, 0, 0, 0],
        [126, 255, 255, 255],
        [128, 0, 0, 1],
        [172, 15, 255, 255],
        [172, 32, 0, 0],
        [192, 167, 1, 1],
        [192, 169, 1, 1],
        [169, 253, 1, 1],
        [192, 0, 3, 1],
        [198, 51, 101, 1],
        [203, 0, 114, 1],
        [223, 255, 255, 255],
    ];
    for a in public {
        assert!(!is_private_ipv4(a), "{:?}", a);
    }
}

#[test]
fn ipv6_range_edges() {
    assert!(is_private_ipv6([0xff00, 0, 0, 0, 0, 0, 0, 0]));
    assert!(is_private_ipv6([0xff02, 0, 0, 0, 0, 0, 0, 1]));
    assert!(is_private_ipv6([0xffff, 1, 2, 3, 4, 5, 6, 7]));
    assert!(is_private_ipv6([0xfdff, 0xffff, 0, 0, 0, 0, 0, 1]));
    assert!(!is_private_ipv6([0xfbff, 0, 0, 0, 0, 0, 0, 1]));
    assert!(is_private_ipv6([0xfebf, 0, 0, 0, 0, 0, 0, 1]));
    assert!(!is_private_ipv6([0xfec0, 0, 0, 0, 0, 0, 0, 1]));
    assert!(!is_private_ipv6([0xfe7f, 0, 0, 0, 0, 0, 0, 1]));
    assert!(!is_private_ipv6([0, 0, 0, 0, 0, 0, 0, 2]));
    assert!(!is_private_ipv6([0, 0, 0, 0, 0, 0, 1, 0]));
    // IPv4-mapped
    assert!(is_private_ipv6([0, 0, 0, 0, 0, 0xffff, 0x7f00, 0x0001]));
    assert!(is_private_ipv6([0, 0, 0, 0, 0, 0xffff, 0xc0a8, 0x0101]));
    assert!(is_private_ipv6([0, 0, 0, 0, 0, 0xffff, 0xa9fe, 0xa9fe]));
    assert!(!is_private_ipv6([0, 0, 0, 0, 0, 0xffff, 0x0808, 0x0808]));
    assert!(!is_private_ipv6([0, 0, 0, 0, 1, 0xffff, 0x7f00, 0x0001]));
    assert!(!is_private_ipv6([0, 0, 0, 0, 0, 0xfffe, 0x7f00, 0x0001]));
}

#[test]
fn either_family_goes_by_its_own_rule() {
    assert!(is_private_ip(IpAddress::V4([10, 1, 2, 3])));
    assert!(!is_private_ip(IpAddress::V4([8, 8, 4, 4])));
    assert!(is_private_ip(IpAddress::V6([0xfe80, 0, 0, 0, 0, 0, 0, 9])));
    assert!(!is_private_ip(IpAddress::V6([0x2001, 0x4860, 0, 0, 0, 0, 0, 0x8888])));
}

#[test]
fn internal_host_names() {
    for name in [
        "localhost",
        "LOCALHOST",
        "LocalHost",
        "printer.local",
        "a.b.LOCAL",
        "db.internal",
        "metadata.google.internal",
        "Metadata.Google.Internal",
        ".local",
    ] {
        assert!(is_internal_host(name), "{}", name);
    }
    for name in [
        "example.com",
        "localhost.example.com",
        "local",
        "internal",
        "mylocal",
        "notlocalhost",
        "example.locale",
        "",
    ] {
        assert!(!is_internal_host(name), "{}", name);
    }
}

#[test]
fn address_text() {
    assert_eq!(IpAddress::V4([0, 10, 192, 255]).to_text(), "0.10.192.255");
    assert_eq!(IpAddress::V4([127, 0, 0, 1]).to_text(), "127.0.0.1");
    assert_eq!(
        IpAddress::V6([0xfe80, 0, 0, 0, 0, 0, 0xabcd, 1]).to_text(),
        "fe80:0:0:0:0:0:abcd:1"
    );
    assert_eq!(
        IpAddress::V6([0xffff, 0x1000, 0x100, 0x10, 0xf, 0x9, 0xa0, 0]).to_text(),
        "ffff:1000:100:10:f:9:a0:0"
    );
}

#[test]
fn guard_messages() {
    match vet_url("ftp://example.com/") {
        Err(Error::InvalidUrl(m)) => {
            assert_eq!(m, "unsupported scheme 'ftp', only http/https allowed")
        }
        other => panic!("{:?}", other),
    }
    match vet_url("file:///etc/passwd") {
        Err(e) => assert_eq!(
            e.to_string(),
            "invalid URL: unsupported scheme 'file', only http/https allowed"
        ),
        other => panic!("{:?}", other),
    }
    match vet_url("http://localhost/") {
        Err(Error::SsrfBlocked(m)) => {
            assert_eq!(m, "blocked request to internal host: localhost")
        }
        other => panic!("{:?}", other),
    }
    match vet_url("http://LocalHost:8080/x") {
        Err(e) => assert_eq!(
            e.to_string(),
            "SSRF protection: blocked request to internal host: localhost"
        ),
        other => panic!("{:?}", other),
    }
    match vet_url("not a url") {
        Err(Error::InvalidUrl(m)) => assert_eq!(m, "relative URL without a base"),
        other => panic!("{:?}", other),
    }
    match vet_url("http://") {
        Err(Error::InvalidUrl(m)) => assert_eq!(m, "empty host"),
        other => panic!("{:?}", other),
    }
    match resolved("intranet.example", vec![
        IpAddress::V4([8, 8, 8, 8]),
        IpAddress::V4([10, 0, 0, 7]),
        IpAddress::V4([192, 168, 0, 1]),
    ]) {
        Err(Error::SsrfBlocked(m)) => assert_eq!(
            m,
            "blocked request to private IP: 10.0.0.7 (resolved from intranet.example)"
        ),
        other => panic!("{:?}", other),
    }
}

#[test]
fn guard_gives_host_and_port() {
    let t = vet_url("https://example.com/a").unwrap();
    assert_eq!((t.host.as_str(), t.port), ("example.com", 443));
    let t = vet_url("http://example.com/a").unwrap();
    assert_eq!((t.host.as_str(), t.port), ("example.com", 80));
    let t = vet_url("http://Example.COM:8080/a").unwrap();
    assert_eq!((t.host.as_str(), t.port), ("example.com", 8080));
    let t = vet_url("https://[2001:db8::1]:8443/").unwrap();
    assert_eq!((t.host.as_str(), t.port), ("[2001:db8::1]", 8443));
}

#[test]
fn guard_on_parts_written_by_hand() {
    let parts = |scheme: &str, host: Option<&str>, port: Option<u16>| UrlParts {
        scheme: scheme.to_string(),
        host: host.map(|h| h.to_string()),
        port,
    };
    match vet_parts(parts("http", None, None)) {
        Err(Error::InvalidUrl(m)) => assert_eq!(m, "missing host"),
        other => panic!("{:?}", other),
    }
    match vet_parts(parts("gopher", None, None)) {
        Err(Error::InvalidUrl(m)) => assert!(m.contains("unsupported scheme 'gopher'")),
        other => panic!("{:?}", other),
    }
    match vet_parts(parts("https", Some("Cache.Internal"), Some(1))) {
        Err(Error::SsrfBlocked(m)) => {
            assert_eq!(m, "blocked request to internal host: Cache.Internal")
        }
        other => panic!("{:?}", other),
    }
    let t = vet_parts(parts("https", Some("example.org"), None)).unwrap();
    assert_eq!((t.host.as_str(), t.port), ("example.org", 443));
    let t = vet_parts(parts("http", Some("example.org"), Some(81))).unwrap();
    assert_eq!((t.host.as_str(), t.port), ("example.org", 81));
}

#[test]
fn no_address_and_public_addresses_pass() {
    assert!(resolved("example.com", vec![]).is_ok());
    assert!(resolved(
        "example.com",
        vec![
            IpAddress::V4([93, 184, 216, 34]),
            IpAddress::V6([0x2606, 0x2800, 0x220, 1, 0x248, 0x1893, 0x25c8, 0x1946])
        ]
    )
    .is_ok());
    assert!(resolved("example.com", vec![IpAddress::V6([0, 0, 0, 0, 0, 0, 0, 1])]).is_err());
}

#[test]
fn options_decide_on_the_guard_and_on_redirects() {
    let off = HttpOptions::new().block_private_ips(false);
    assert!(matches!(off.guard("http://localhost/"), Ok(None)));
    assert!(matches!(off.guard("nonsense"), Ok(None)));
    let on = HttpOptions::new();
    assert!(matches!(on.guard("http://localhost/"), Err(Error::SsrfBlocked(_))));
    assert!(matches!(on.guard("file:///etc/passwd"), Err(Error::InvalidUrl(_))));
    match on.guard("https://example.com:444/") {
        Ok(Some(t)) => assert_eq!((t.host.as_str(), t.port), ("example.com", 444)),
        other => panic!("{:?}", other),
    }
    assert_eq!(on.redirect_policy(), RedirectPolicy::Limited(10));
    assert_eq!(
        HttpOptions::new().max_redirects(3).redirect_policy(),
        RedirectPolicy::Limited(3)
    );
    assert_eq!(
        HttpOptions::new().follow_redirects(false).redirect_policy(),
        RedirectPolicy::Never
    );
}

#[test]
fn default_user_agent_and_headers() {
    let options = HttpOptions::new();
    assert_eq!(
        options.user_agent,
        "webpage-info/1.0.0 (https://crates.io/crates/webpage-info)"
    );
    assert!(options.headers.is_empty());
    let options = options.header("A", "1").header("B", "2");
    assert_eq!(
        options.headers,
        vec![
            ("A".to_string(), "1".to_string()),
            ("B".to_string(), "2".to_string())
        ]
    );
}

#[test]
fn media_type_of_header_values() {
    assert_eq!(media_type_of("text/html; charset=utf-8"), "text/html");
    assert_eq!(media_type_of("  application/xml  "), "application/xml");
    assert_eq!(media_type_of("text/html ;a=b;c=d"), "text/html");
    assert_eq!(media_type_of(";charset=utf-8"), "");
    assert_eq!(media_type_of(""), "");
    assert_eq!(
        content_type_of(Some(&b"text/plain; x".to_vec())),
        Some("text/plain".to_string())
    );
    assert_eq!(content_type_of(Some(&vec![0x74, 0xff, 0x74])), None);
    assert_eq!(content_type_of(None), None);
}

#[test]
fn headers_that_are_no_text_are_dropped() {
    let raw = vec![
        ("server".to_string(), b"nginx".to_vec()),
        ("x-bad".to_string(), vec![0xc3, 0x28]),
        ("x-name".to_string(), "J\u{fc}rgen".as_bytes().to_vec()),
        ("set-cookie".to_string(), b"a=1".to_vec()),
        ("set-cookie".to_string(), b"b=2".to_vec()),
    ];
    assert_eq!(
        keep_text_headers(raw),
        vec![
            ("server".to_string(), "nginx".to_string()),
            ("x-name".to_string(), "J\u{fc}rgen".to_string()),
            ("set-cookie".to_string(), "a=1".to_string()),
            ("set-cookie".to_string(), "b=2".to_string()),
        ]
    );
}

#[test]
fn initial_capacity_is_the_least_of_three() {
    assert_eq!(initial_capacity(None, 100), 0);
    assert_eq!(initial_capacity(Some(50), 100), 50);
    assert_eq!(initial_capacity(Some(500), 100), 100);
    assert_eq!(initial_capacity(Some(5_000_000), 10_000_000), 1_048_576);
    assert_eq!(initial_capacity(Some(u64::MAX), usize::MAX), 1_048_576);
    assert_eq!(initial_capacity(Some(7), 0), 0);
}

#[test]
fn body_is_cut_at_the_limit() {
    let mut body = BodyBuffer::new(Some(20), 10);
    assert!(body.push_chunk(b"abcd"));
    assert!(body.push_chunk(b""));
    assert!(body.push_chunk(b"efgh"));
    assert!(!body.push_chunk(b"ijkl"));
    assert_eq!(body.into_bytes(), b"abcdefghij".to_vec());

    let mut body = BodyBuffer::new(None, 4);
    assert!(body.push_chunk(b"abcd"));
    assert!(!body.push_chunk(b"e"));
    assert_eq!(body.into_bytes(), b"abcd".to_vec());

    let mut body = BodyBuffer::new(None, 4);
    assert!(body.push_chunk(b"abcd"));
    assert!(!body.push_chunk(b""));
    assert_eq!(body.into_bytes(), b"abcd".to_vec());

    let mut body = BodyBuffer::new(None, 0);
    assert!(!body.push_chunk(b"abc"));
    assert!(body.into_bytes().is_empty());
}

#[test]
fn response_is_put_together() {
    let head = ResponseHead {
        url: "https://example.com/final".to_string(),
        status_code: 203,
        headers: vec![
            ("content-type".to_string(), b"text/html; charset=utf-8".to_vec()),
            ("x-raw".to_string(), vec![0xff]),
        ],
        content_type: Some(b"text/html; charset=utf-8".to_vec()),
    };
    let info = HttpInfo::assemble(head, vec![b'o', b'k', 0xff, b'!']);
    assert_eq!(info.url, "https://example.com/final");
    assert_eq!(info.status_code, 203);
    assert_eq!(
        info.headers,
        vec![(
            "content-type".to_string(),
            "text/html; charset=utf-8".to_string()
        )]
    );
    assert_eq!(info.content_type.as_deref(), Some("text/html"));
    assert_eq!(info.redirect_count, 0);
    assert_eq!(info.body, "ok\u{fffd}!");
}

#[test]
fn malformed_headers_are_not_sent() {
    let options = HttpOptions::new()
        .header("X-One", "1")
        .header("bad name", "v")
        .header("X-Two", "line\nbreak")
        .header("", "empty")
        .header("x-three", "caf\u{e9}")
        .header("X-Four", "");
    assert_eq!(options.headers.len(), 6);
    assert_eq!(
        options.request_headers(),
        vec![
            ("X-One".to_string(), "1".to_string()),
            ("x-three".to_string(), "caf\u{e9}".to_string()),
            ("X-Four".to_string(), "".to_string()),
        ]
    );
}
