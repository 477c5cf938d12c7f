use data_surgeon::catalog::{build_regex_query, Catalog, CatalogError, EMAIL_PATTERN, SRV_DNS_PATTERN};
use data_surgeon::category::Category;
use data_surgeon::classify::{handle, message, scan, Data};
use data_surgeon::matcher::Matcher;

fn full() -> data_surgeon::catalog::ActiveSet {
    build_regex_query(&vec![]).unwrap()
}

fn line(s: &str) -> Option<String> {
    Some(s.to_string())
}

#[test]
fn email_line_is_reported_as_email() {
    let a = full();
    assert_eq!(
        handle(&line("Contact: jane.doe@example.com for details"), &a),
        Some("email: Contact: jane.doe@example.com for details".to_string())
    );
}

#[test]
fn ip_line_is_reported_as_ip_address() {
    let a = full();
    assert_eq!(
        handle(&line("Server at 192.168.1.10 is up"), &a),
        Some("ip_address: Server at 192.168.1.10 is up".to_string())
    );
}

#[test]
fn mac_line_is_silent_when_only_email_is_active() {
    let a = build_regex_query(&vec![Category::Email]).unwrap();
    assert_eq!(a.categories(), vec![Category::Email]);
    assert_eq!(handle(&line("MAC 00:1A:2B:3C:4D:5E registered"), &a), None);
    assert_eq!(a.classify("MAC 00:1A:2B:3C:4D:5E registered"), None);
}

#[test]
fn mac_line_is_reported_with_full_catalog() {
    let a = full();
    assert_eq!(
        handle(&line("MAC 00:1A:2B:3C:4D:5E registered"), &a),
        Some("mac_address: MAC 00:1A:2B:3C:4D:5E registered".to_string())
    );
}

#[test]
fn empty_line_is_silent() {
    let a = full();
    assert_eq!(handle(&line(""), &a), None);
    assert_eq!(a.classify(""), None);
}

#[test]
fn empty_line_is_silent_even_with_blank_pattern() {
    let c = Catalog::new(&vec![(Category::Email, String::new())]).unwrap();
    let a = c.active_set(&vec![]);
    assert_eq!(a.categories(), vec![Category::Email]);
    assert_eq!(a.classify(""), None);
    assert_eq!(a.classify("x"), Some(Category::Email));
}

#[test]
fn requested_blank_pattern_is_dropped() {
    let c = Catalog::new(&vec![
        (Category::Email, EMAIL_PATTERN.to_string()),
        (Category::Url, String::new()),
    ])
    .unwrap();
    let a = c.active_set(&vec![Category::Url]);
    assert_eq!(a.categories(), vec![]);
    assert_eq!(a.classify("http://example.com"), None);
    assert_eq!(handle(&line("anything at all"), &a), None);
}

#[test]
fn uninteresting_line_is_silent() {
    let a = full();
    assert_eq!(handle(&line("nothing interesting here"), &a), None);
    assert_eq!(a.classify("nothing interesting here"), None);
}

#[test]
fn no_request_selects_whole_catalog() {
    let c = Catalog::builtin().unwrap();
    let all = Category::all();
    assert_eq!(c.categories(), all);
    assert_eq!(c.active_set(&vec![]).categories(), all);
}

#[test]
fn request_outside_catalog_selects_whole_catalog() {
    let c = Catalog::new(&vec![(Category::Email, EMAIL_PATTERN.to_string())]).unwrap();
    let a = c.active_set(&vec![Category::MacAddress]);
    assert_eq!(a.categories(), vec![Category::Email]);
}

#[test]
fn request_keeps_only_requested_in_catalog_order() {
    let a = build_regex_query(&vec![Category::MacAddress, Category::Email]).unwrap();
    assert_eq!(a.categories(), vec![Category::Email, Category::MacAddress]);
    assert_eq!(a.classify("Server at 192.168.1.10 is up"), None);
}

#[test]
fn first_match_wins() {
    let c = Catalog::new(&vec![
        (Category::SrvDns, SRV_DNS_PATTERN.to_string()),
        (Category::Email, EMAIL_PATTERN.to_string()),
    ])
    .unwrap();
    let a = c.active_set(&vec![]);
    assert_eq!(a.classify("jane.doe@example.io"), Some(Category::SrvDns));
    assert_eq!(full().classify("jane.doe@example.io"), Some(Category::Email));
}

#[test]
fn srv_record_is_reported() {
    assert_eq!(
        handle(&line("lookup _ldap._tcp.example.io failed"), &full()),
        Some("srv_dns: lookup _ldap._tcp.example.io failed".to_string())
    );
}

#[test]
fn url_line_is_reported() {
    assert_eq!(
        handle(&line("www.example.com/path"), &full()),
        Some("url: www.example.com/path".to_string())
    );
}

#[test]
fn duplicate_category_is_refused() {
    let r = Catalog::new(&vec![
        (Category::Email, EMAIL_PATTERN.to_string()),
        (Category::Url, "u".to_string()),
        (Category::Email, "e".to_string()),
    ]);
    assert_eq!(r.err(), Some(CatalogError::DuplicateCategory(Category::Email)));
}

#[test]
fn invalid_pattern_is_refused() {
    let r = Catalog::new(&vec![
        (Category::Email, EMAIL_PATTERN.to_string()),
        (Category::Url, "foo(bar".to_string()),
    ]);
    assert_eq!(r.err(), Some(CatalogError::InvalidPattern(Category::Url)));
}

#[test]
fn matcher_reports_blank_and_matches() {
    let m = Matcher::new("ab+").unwrap();
    assert!(!m.is_blank());
    assert!(m.is_match("xxabbby"));
    assert!(!m.is_match("xxay"));
    assert!(Matcher::new("").unwrap().is_blank());
    assert!(Matcher::new("foo(bar").is_err());
}

#[test]
fn message_joins_name_and_line() {
    assert_eq!(message(Category::IpAddress, "a b"), "ip_address: a b".to_string());
    assert_eq!(Category::SrvDns.name(), "srv_dns");
}

#[test]
fn scan_keeps_order_and_skips_unreadable_lines() {
    let a = full();
    let lines = vec![
        line("MAC 00:1A:2B:3C:4D:5E registered"),
        None,
        line(""),
        line("nothing interesting here"),
        line("Contact: jane.doe@example.com for details"),
        line("Server at 192.168.1.10 is up"),
    ];
    assert_eq!(
        scan(&lines, &a),
        vec![
            "mac_address: MAC 00:1A:2B:3C:4D:5E registered".to_string(),
            "email: Contact: jane.doe@example.com for details".to_string(),
            "ip_address: Server at 192.168.1.10 is up".to_string(),
        ]
    );
}

#[test]
fn unreadable_line_is_silent() {
    assert_eq!(handle(&None, &full()), None);
}

#[test]
fn data_defaults_and_message() {
    let d = Data::default();
    assert_eq!(d.raw_line, "0".to_string());
    assert!(!d.is_juicy);
    assert_eq!(d.content_type, None);
    let n = Data::new("hello".to_string());
    assert_eq!(n.raw_line, "hello".to_string());
    assert!(!n.is_juicy);
    assert_eq!(n.to_message(), "None: hello".to_string());
}

#[test]
fn data_content_type_is_set_on_match_only() {
    let a = full();
    let mut d = Data::new("Server at 10.0.0.1 is up".to_string());
    d.set_content_type(&a);
    assert!(d.is_juicy);
    assert_eq!(d.content_type, Some(Category::IpAddress));
    assert_eq!(d.to_message(), "ip_address: Server at 10.0.0.1 is up".to_string());
    let mut q = Data::new("plain words".to_string());
    q.set_content_type(&a);
    assert!(!q.is_juicy);
    assert_eq!(q.content_type, None);
}
