use domainesia::escape::{is_control_char, json_escape, url_encode};
use domainesia::markup::strip_tags;
use domainesia::model::{fqdn, DnsRecord};
use domainesia::number::{decimal_string, parse_u16, parse_u32, push_decimal};
use domainesia::text::{join_strings, replace_str, str_eq, to_chars};

fn record(domain: &str, name: &str) -> DnsRecord {
    DnsRecord {
        domain: domain.to_string(),
        name: name.to_string(),
        record_type: "A".to_string(),
        value: "192.0.2.1".to_string(),
        ttl: 3600,
        priority: None,
    }
}

#[test]
fn fqdn_cases() {
    assert_eq!(fqdn(&record("example.my.id", "@")), "example.my.id");
    assert_eq!(fqdn(&record("example.my.id", "example.my.id")), "example.my.id");
    assert_eq!(fqdn(&record("example.my.id", "www.example.my.id")), "www.example.my.id");
    assert_eq!(fqdn(&record("example.my.id", "app..")), "app.example.my.id");
    assert_eq!(fqdn(&record("example.my.id", "")), ".example.my.id");
}

#[test]
fn fqdn_ends_with_domain_and_is_stable() {
    for name in ["@", "app", "a.b", "x.example.my.id", "mail."] {
        let r = record("example.my.id", name);
        let full = fqdn(&r);
        assert!(full.ends_with("example.my.id"));
        assert_eq!(fqdn(&record("example.my.id", &full)), full);
    }
}

#[test]
fn json_escape_control_characters() {
    assert_eq!(json_escape("a\nb\tc\rd"), "a\\nb\\tc\\rd");
    assert_eq!(json_escape("\u{1}\u{1f}\u{7f}"), "\\u0001\\u001f\\u007f");
    assert_eq!(json_escape("\u{85}é"), "\\u0085é");
    assert_eq!(json_escape(""), "");
    assert!(is_control_char('\u{9f}'));
    assert!(!is_control_char(' '));
}

#[test]
fn json_escape_leaves_no_bare_quote() {
    let escaped = json_escape("say \"hi\" \\ bye");
    assert_eq!(escaped, "say \\\"hi\\\" \\\\ bye");
    let chars: Vec<char> = escaped.chars().collect();
    for (i, c) in chars.iter().enumerate() {
        if *c == '"' {
            assert_eq!(chars[i - 1], '\\');
        }
    }
}

#[test]
fn url_encode_bytes() {
    assert_eq!(url_encode("é"), "%C3%A9");
    assert_eq!(url_encode("AZaz09-_.~"), "AZaz09-_.~");
    assert_eq!(url_encode("a/b?c=d&e"), "a%2Fb%3Fc%3Dd%26e");
    assert_eq!(url_encode(""), "");
}

#[test]
fn url_encoding_is_form_safe() {
    let encoded = url_encode("x y=z&w+é%\n\"");
    assert_eq!(encoded, "x+y%3Dz%26w%2B%C3%A9%25%0A%22");
    assert!(encoded
        .chars()
        .all(|c| c.is_ascii_alphanumeric() || "-_.~+%".contains(c)));
}

#[test]
fn strip_tags_leaves_no_angle_brackets() {
    let out = strip_tags("<p>a<b>b</b> > c < d</p>");
    assert_eq!(out, "ab  c ");
    assert!(!out.contains('<') && !out.contains('>'));
}

#[test]
fn unsigned_parsing() {
    assert_eq!(parse_u32("0"), Some(0));
    assert_eq!(parse_u32("+7"), Some(7));
    assert_eq!(parse_u32("007"), Some(7));
    assert_eq!(parse_u32("4294967295"), Some(4294967295));
    assert_eq!(parse_u32("4294967296"), None);
    assert_eq!(parse_u32(""), None);
    assert_eq!(parse_u32("+"), None);
    assert_eq!(parse_u32(" 7"), None);
    assert_eq!(parse_u32("-0"), None);
    assert_eq!(parse_u16("65535"), Some(65535));
    assert_eq!(parse_u16("65536"), None);
    assert_eq!(parse_u16("1e3"), None);
}

#[test]
fn decimal_text_round_trips() {
    assert_eq!(decimal_string(0), "0");
    assert_eq!(decimal_string(1234), "1234");
    assert_eq!(decimal_string(u64::MAX), "18446744073709551615");
    for n in [0u32, 9, 10, 65535, 4294967295] {
        assert_eq!(parse_u32(&decimal_string(n as u64)), Some(n));
    }
    let mut out = "n=".to_string();
    push_decimal(&mut out, 42);
    assert_eq!(out, "n=42");
}

#[test]
fn text_helpers() {
    assert_eq!(replace_str("a\\/b\\/c", "\\/", "/"), "a/b/c");
    assert_eq!(replace_str("aaa", "aa", "b"), "ba");
    assert_eq!(
        join_strings(&vec!["a".to_string(), "b".to_string(), "c".to_string()], ", "),
        "a, b, c"
    );
    assert_eq!(join_strings(&Vec::new(), ","), "");
    assert!(str_eq("ä", "ä"));
    assert!(!str_eq("a", "ab"));
    assert_eq!(to_chars("hé"), vec!['h', 'é']);
}
