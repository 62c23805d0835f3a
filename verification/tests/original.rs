use domainesia::escape::{json_escape, url_encode};
use domainesia::html::extract_endpoint_candidates;
use domainesia::model::{fqdn, DnsRecord};

#[test]
fn builds_fqdn_from_short_name() {
    let record = DnsRecord {
        domain: "example.my.id".to_string(),
        name: "10router".to_string(),
        record_type: "A".to_string(),
        value: "203.0.113.10".to_string(),
        ttl: 3600,
        priority: None,
    };
    assert_eq!(fqdn(&record), "10router.example.my.id");
}

#[test]
fn extracts_endpoint_candidates() {
    let text = r#"{"url":"https:\/\/my.domainesia.com\/clientarea\/dns\/records\/123"}"#;
    let candidates = extract_endpoint_candidates(text);
    assert_eq!(
        candidates,
        vec!["https://my.domainesia.com/clientarea/dns/records/123"]
    );
}

#[test]
fn escapes_json() {
    assert_eq!(json_escape("a\"b\\c"), "a\\\"b\\\\c");
}

#[test]
fn url_encodes_form_values() {
    assert_eq!(url_encode("a b+c@example.com"), "a+b%2Bc%40example.com");
}
