use minginx::addr::{to_ip_addr, IpAddress};
use minginx::host::HostMatcher;
use minginx::ip::IpMatcher;
use minginx::location::LocationMatcher;
use minginx::wildcard::WildcardMatcher;

#[test]
fn ip() {}

#[test]
fn wildcard_literal_matches_itself() {
    let m = WildcardMatcher::new("example.com");
    assert!(m.is_match("example.com"));
    assert!(!m.is_match("example.org"));
    assert!(!m.is_match("example.com."));
    assert!(!m.is_match(""));
    let empty = WildcardMatcher::new("");
    assert!(empty.is_match(""));
    assert!(!empty.is_match("x"));
}

#[test]
fn wildcard_matches_exactly_one_label() {
    let m = WildcardMatcher::new("*.example.com");
    assert!(m.is_match("www.example.com"));
    assert!(!m.is_match("a.b.example.com"));
    assert!(!m.is_match("example.com"));
    assert!(!m.is_match("www.example.org"));
    assert!(!m.is_match(".example.com"));
}

#[test]
fn wildcard_multiple_stars() {
    let m = WildcardMatcher::new("*.*.example.com");
    assert!(m.is_match("a.b.example.com"));
    assert!(!m.is_match("a.example.com"));
    assert!(!m.is_match("a.b.c.example.com"));
}

#[test]
fn host_empty_is_catch_all() {
    let m = HostMatcher::new(vec![]);
    assert!(m.is_empty());
    assert!(m.is_match("anything"));
    assert!(m.is_match(""));
    assert!(m.is_match("a.b.c"));
}

#[test]
fn host_raw_literals_deduplicated() {
    let m = HostMatcher::new(vec!["a.com", "a.com"]);
    let raw = m.get_raw();
    assert_eq!(1, raw.len());
    assert_eq!("a.com", raw[0].as_str());
}

#[test]
fn host_raw_literals_skip_wildcards() {
    let m = HostMatcher::new(vec!["*.a.com", "b.com", "*.a.com", "c.com"]);
    let raw = m.get_raw();
    assert_eq!(2, raw.len());
    assert_eq!("b.com", raw[0].as_str());
    assert_eq!("c.com", raw[1].as_str());
}

#[test]
fn host_construction_order_independent() {
    let m1 = HostMatcher::new(vec!["b.com", "a.com", "*.c.com", "a.com"]);
    let m2 = HostMatcher::new(vec!["*.c.com", "a.com", "b.com"]);
    assert_eq!(m1.get_raw(), m2.get_raw());
    let raw = m1.get_raw();
    assert_eq!(2, raw.len());
    assert_eq!("a.com", raw[0].as_str());
    assert_eq!("b.com", raw[1].as_str());
    for h in ["a.com", "b.com", "x.c.com", "z"] {
        assert_eq!(m1.is_match(h), m2.is_match(h));
    }
    assert_eq!(m1.is_empty(), m2.is_empty());
}

#[test]
fn host_raw_literals_sorted() {
    let m = HostMatcher::new(vec!["z.com", "a.com", "m.com"]);
    let raw = m.get_raw();
    assert_eq!(3, raw.len());
    assert_eq!("a.com", raw[0].as_str());
    assert_eq!("m.com", raw[1].as_str());
    assert_eq!("z.com", raw[2].as_str());
}

#[test]
fn host_matches_literal_or_wildcard() {
    let m = HostMatcher::new(vec!["a.com", "*.b.com"]);
    assert!(!m.is_empty());
    assert!(m.is_match("a.com"));
    assert!(m.is_match("www.b.com"));
    assert!(!m.is_match("b.com"));
    assert!(!m.is_match("c.com"));
}

#[test]
fn host_default_is_empty() {
    let m = HostMatcher::default();
    assert!(m.is_empty());
    assert!(m.is_match("x"));
}

#[test]
fn ip_allow_only() {
    let m = IpMatcher::new(vec!["10.0.0.1"], vec![]).unwrap();
    assert!(m.is_pass(IpAddress { a: 10, b: 0, c: 0, d: 1 }));
    assert!(!m.is_pass(IpAddress { a: 10, b: 0, c: 0, d: 2 }));
}

#[test]
fn ip_deny_only_default_permit() {
    let m = IpMatcher::new(vec![], vec!["10.0.0.1"]).unwrap();
    assert!(!m.is_pass(IpAddress { a: 10, b: 0, c: 0, d: 1 }));
    assert!(m.is_pass(IpAddress { a: 10, b: 0, c: 0, d: 2 }));
}

#[test]
fn ip_allow_overrides_deny() {
    let m = IpMatcher::new(vec!["10.0.0.1"], vec!["10.0.0.2"]).unwrap();
    assert!(!m.is_pass(IpAddress { a: 10, b: 0, c: 0, d: 2 }));
    let m = IpMatcher::new(vec!["10.0.0.2"], vec!["10.0.0.2"]).unwrap();
    assert!(m.is_pass(IpAddress { a: 10, b: 0, c: 0, d: 2 }));
}

#[test]
fn ip_empty_lists_permit_everything() {
    let m = IpMatcher::new(vec![], vec![]).unwrap();
    assert!(m.is_pass(IpAddress { a: 1, b: 2, c: 3, d: 4 }));
}

#[test]
fn ip_wildcard_entries() {
    let m = IpMatcher::new(vec!["192.168.*.1"], vec![]).unwrap();
    assert!(m.is_pass(IpAddress { a: 192, b: 168, c: 7, d: 1 }));
    assert!(!m.is_pass(IpAddress { a: 192, b: 168, c: 7, d: 2 }));
    assert!(!m.is_pass(IpAddress { a: 10, b: 168, c: 7, d: 1 }));
}

#[test]
fn ip_invalid_literal_is_rejected() {
    let e = IpMatcher::new(vec!["10.0.0.300"], vec![]).unwrap_err();
    assert_eq!("Cannot parse `10.0.0.300` to IP addr".to_string(), e);
    let e = IpMatcher::new(vec!["1.2.3.4"], vec!["nonsense"]).unwrap_err();
    assert_eq!("Cannot parse `nonsense` to IP addr".to_string(), e);
}

#[test]
fn ip_address_parsing() {
    assert_eq!(IpAddress { a: 1, b: 2, c: 3, d: 4 }, to_ip_addr("1.2.3.4").unwrap());
    assert_eq!(IpAddress { a: 0, b: 0, c: 0, d: 0 }, to_ip_addr("0.0.0.0").unwrap());
    assert_eq!(
        IpAddress { a: 255, b: 255, c: 255, d: 255 },
        to_ip_addr("255.255.255.255").unwrap()
    );
    assert!(to_ip_addr("256.0.0.1").is_err());
    assert!(to_ip_addr("01.0.0.1").is_err());
    assert!(to_ip_addr("1.2.3").is_err());
    assert!(to_ip_addr("1.2.3.4.5").is_err());
    assert!(to_ip_addr("1.2.3.x").is_err());
    assert!(to_ip_addr("").is_err());
    assert!(to_ip_addr("::1").is_err());
}

#[test]
fn ip_address_text() {
    assert_eq!("10.0.0.1".to_string(), IpAddress { a: 10, b: 0, c: 0, d: 1 }.to_text());
    assert_eq!(
        "255.187.7.0".to_string(),
        IpAddress { a: 255, b: 187, c: 7, d: 0 }.to_text()
    );
}

#[test]
fn ip_text_parse_roundtrip() {
    let samples = [
        IpAddress { a: 0, b: 0, c: 0, d: 0 },
        IpAddress { a: 10, b: 0, c: 0, d: 1 },
        IpAddress { a: 127, b: 0, c: 0, d: 1 },
        IpAddress { a: 255, b: 255, c: 255, d: 255 },
        IpAddress { a: 9, b: 10, c: 99, d: 100 },
    ];
    for ip in samples {
        assert_eq!(ip, to_ip_addr(&ip.to_text()).unwrap());
    }
}

#[test]
fn location_prefix() {
    let m = LocationMatcher::start("/static/");
    assert!(m.is_match("/static/app.js"));
    assert!(!m.is_match("/app/static/x"));
    assert!(m.is_match("/static/"));
    assert!(!m.is_match("/stati"));
}

#[test]
fn location_suffix() {
    let m = LocationMatcher::end(".css");
    assert!(m.is_match("/style.css"));
    assert!(!m.is_match("/style.css.map"));
}

#[test]
fn location_regex() {
    let m = LocationMatcher::regex("^/api/v[0-9]+$").unwrap();
    assert!(m.is_match("/api/v1"));
    assert!(m.is_match("/api/v42"));
    assert!(!m.is_match("/api/vx"));
    assert!(!m.is_match("/api/v1/extra"));
}

#[test]
fn location_regex_rejects_malformed_pattern() {
    let e = LocationMatcher::regex("^/api/v[0-9+$").unwrap_err();
    assert!(e.starts_with("Cannot parse `^/api/v[0-9+$` to regular expression\n"));
}

#[test]
fn location_glob() {
    let m = LocationMatcher::glob("/static/*.js").unwrap();
    assert!(m.is_match("/static/app.js"));
    assert!(!m.is_match("/static/app.css"));
    let e = LocationMatcher::glob("/static/[").unwrap_err();
    assert!(e.starts_with("Cannot parse `/static/[` to glob matcher\n"));
}

#[test]
fn location_glob_rejects_overlong_pattern() {
    let long = "a".repeat(5000);
    let e = LocationMatcher::glob(&long).unwrap_err();
    assert_eq!(
        format!("Cannot parse `{}` to glob matcher\npattern is too long", long),
        e
    );
    let edge = "a".repeat(4096);
    assert!(LocationMatcher::glob(&edge).is_ok());
}

#[test]
fn location_clone_matches_alike() {
    let glob = LocationMatcher::glob("/static/*.js").unwrap();
    let glob_copy = glob.clone();
    assert!(glob_copy.is_match("/static/app.js"));
    assert!(!glob_copy.is_match("/static/app.css"));
    let re = LocationMatcher::regex("^/api/v[0-9]+$").unwrap();
    let re_copy = re.clone();
    assert!(re_copy.is_match("/api/v7"));
    assert!(!re_copy.is_match("/api/x"));
    let pre = LocationMatcher::start("/a").clone();
    assert!(pre.is_match("/a/b"));
    let suf = LocationMatcher::end(".css").clone();
    assert!(suf.is_match("/x.css"));
}

#[test]
fn matchers_are_idempotent() {
    for _ in 0..2 {
        let w1 = WildcardMatcher::new("*.example.com");
        let w2 = WildcardMatcher::new("*.example.com");
        assert_eq!(w1.is_match("www.example.com"), w2.is_match("www.example.com"));
        assert_eq!(w1.is_match("www.example.com"), w1.is_match("www.example.com"));

        let h1 = HostMatcher::new(vec!["a.com", "*.b.com"]);
        let h2 = HostMatcher::new(vec!["a.com", "*.b.com"]);
        assert_eq!(h1.is_match("www.b.com"), h2.is_match("www.b.com"));

        let i1 = IpMatcher::new(vec!["10.0.0.1"], vec!["10.0.0.2"]).unwrap();
        let i2 = IpMatcher::new(vec!["10.0.0.1"], vec!["10.0.0.2"]).unwrap();
        let probe = IpAddress { a: 10, b: 0, c: 0, d: 1 };
        assert_eq!(i1.is_pass(probe), i2.is_pass(probe));

        let l1 = LocationMatcher::glob("/static/*.js").unwrap();
        let l2 = LocationMatcher::glob("/static/*.js").unwrap();
        assert_eq!(l1.is_match("/static/app.js"), l2.is_match("/static/app.js"));
        assert_eq!(l1.is_match("/static/app.js"), l1.is_match("/static/app.js"));
    }
}
