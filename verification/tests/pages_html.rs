use domainesia::cli::Config;
use domainesia::dns::{cmd_dns_list, load_dns_form};
use domainesia::html::{
    attr_value, extract_all_between, extract_between, extract_endpoint_candidates,
    extract_forms_json, input_value_after_name, parse_dns_form, parse_domains,
    parse_invoices_json, selected_option_value,
};
use domainesia::markup::{clean_html, html_unescape, strip_tags};
use domainesia::model::{domain_json, DomainInfo};
use domainesia::pages::{
    byte_len, cmd_raw, domains_page, load_domains, domain_detail_path, domain_detail_report, domains_list_report,
    features_forms_path, features_list_json, forms_report, har_path, har_report, invoices_report,
    prefix_chars, raw_report, resolve_domain, resolve_domain_from_args, version_report,
};

fn strings(items: &[&str]) -> Vec<String> {
    items.iter().map(|s| s.to_string()).collect()
}

const DOMAINS_HTML: &str = "<table><tr data-element-id=\"123\" data-domain=\"example.my.id\"><td><span class=\"w-hidden\">2024-01-01</span></td><td><span class=\"w-hidden\">2025-01-01</span></td><td><span class=\"status status-active\">Active</span></td></tr><tr data-element-id=\"456\" data-domain=\"old.my.id\"><td><span class=\"status status-expired\">Expired</span></td></tr></table>";

const DOMAIN_123_JSON: &str = "{\"id\":\"123\",\"domain\":\"example.my.id\",\"registration_date\":\"2024-01-01\",\"next_due_date\":\"2025-01-01\",\"status\":\"Active\",\"detail_path\":\"/clientarea.php?action=domaindetails&id=123\",\"dns_path\":\"/clientarea.php?action=domaindns&domainid=123\"}";

const DNS_HTML: &str = "<form><input type=\"hidden\" name=\"token\" value=\"tok123\"><input type=\"hidden\" name=\"domainid\" value=\"77\"><table><tbody><tr><td><input type=\"text\" name=\"dnsrecordhost[]\" value=\"app\"></td><td><select name=\"dnsrecordtype[]\"><option value=\"A\">A</option><option value=\"CNAME\" selected=\"selected\">CNAME</option></select></td><td><input type=\"text\" name=\"dnsrecordaddress[]\" value=\"target.example.com\"></td><td><input type=\"text\" name=\"dnsrecordpriority[]\" value=\"N/A\"></td></tr><tr><td><input type=\"text\" name=\"dnsrecordhost[]\" value=\"\"></td><td><input type=\"text\" name=\"dnsrecordaddress[]\" value=\"\"></td></tr><tr><td><input type=\"text\" name=\"dnsrecordhost[]\" value=\"@\"></td><td><select name=\"dnsrecordtype[]\"><option value=\"MX\" selected=\"selected\">MX</option></select></td><td><input type=\"text\" name=\"dnsrecordaddress[]\" value=\"mail.example.my.id\"></td><td><input type=\"text\" name=\"dnsrecordpriority[]\" value=\"10\"></td></tr><tr><td><input type=\"text\" name=\"dnsrecordhost[]\" value=\"txt\"></td><td><input type=\"text\" name=\"dnsrecordaddress[]\" value=\"a &amp; b\"></td></tr></tbody></table></form>";

#[test]
fn parses_domain_rows() {
    let domains = parse_domains(DOMAINS_HTML);
    assert_eq!(domains.len(), 2);
    assert_eq!(domain_json(&domains[0]), DOMAIN_123_JSON);
    assert_eq!(domains[1].id, "456");
    assert_eq!(domains[1].domain, "old.my.id");
    assert_eq!(domains[1].registration_date, "");
    assert_eq!(domains[1].status, "Expired");
    assert!(parse_domains("<p>nothing</p>").is_empty());
}

#[test]
fn domains_report_counts_domains() {
    let domains = parse_domains(DOMAINS_HTML);
    let report = domains_list_report(&domains);
    assert!(report.starts_with(&format!("{{\"count\":2,\"domains\":[{},", DOMAIN_123_JSON)));
    assert_eq!(domains_list_report(&Vec::new()), "{\"count\":0,\"domains\":[]}");
}

#[test]
fn resolves_domains_by_name_or_id() {
    let found = resolve_domain(parse_domains(DOMAINS_HTML), "old.my.id").unwrap();
    assert_eq!(found.id, "456");
    let by_id = resolve_domain(parse_domains(DOMAINS_HTML), "123").unwrap();
    assert_eq!(by_id.domain, "example.my.id");
    match resolve_domain(parse_domains(DOMAINS_HTML), "nope.my.id") {
        Err(e) => assert_eq!(e, "domain not found: nope.my.id"),
        Ok(_) => panic!("no such domain"),
    }
}

#[test]
fn domain_name_from_arguments_or_settings() {
    let empty = Config::from_text("", &[], "p");
    assert_eq!(
        resolve_domain_from_args(&strings(&["domains", "resolve"]), &empty),
        Err("missing --domain and no default domain configured".to_string())
    );
    let config = Config::from_text("DOMAINESIA_DEFAULT_DOMAIN=example.my.id\n", &[], "p");
    assert_eq!(
        resolve_domain_from_args(&strings(&["domains", "resolve"]), &config),
        Ok("example.my.id".to_string())
    );
    assert_eq!(
        resolve_domain_from_args(&strings(&["domains", "resolve", "--domain", "x.id"]), &config),
        Ok("x.id".to_string())
    );
}

#[test]
fn detail_report_tells_whether_a_token_is_present() {
    let domain = DomainInfo {
        id: "123".to_string(),
        domain: "example.my.id".to_string(),
        registration_date: "2024-01-01".to_string(),
        next_due_date: "2025-01-01".to_string(),
        status: "Active".to_string(),
    };
    assert_eq!(domain_detail_path("123"), "/clientarea.php?action=domaindetails&id=123");
    assert_eq!(
        domain_detail_report(&domain, "<script>var csrfToken = 'abc';</script>"),
        format!(
            "{{\"domain\":{},\"detail_path\":\"/clientarea.php?action=domaindetails&id=123\",\"dns_path\":\"/clientarea.php?action=domaindns&domainid=123\",\"csrf_token_present\":true}}",
            DOMAIN_123_JSON
        )
    );
    assert!(domain_detail_report(&domain, "var csrfToken = '';").ends_with("\"csrf_token_present\":false}"));
    assert!(domain_detail_report(&domain, "").ends_with("\"csrf_token_present\":false}"));
}

#[test]
fn parses_dns_management_form() {
    let form = parse_dns_form(DNS_HTML, "example.my.id").unwrap();
    assert_eq!(form.token, "tok123");
    assert_eq!(form.domain_id, "77");
    assert_eq!(form.records.len(), 3);
    assert_eq!(form.records[0].name, "app");
    assert_eq!(form.records[0].record_type, "CNAME");
    assert_eq!(form.records[0].value, "target.example.com");
    assert_eq!(form.records[0].priority, None);
    assert_eq!(form.records[1].name, "@");
    assert_eq!(form.records[1].record_type, "MX");
    assert_eq!(form.records[1].priority, Some(10));
    assert_eq!(form.records[2].record_type, "A");
    assert_eq!(form.records[2].value, "a & b");
    assert_eq!(form.records[2].ttl, 3600);
    assert_eq!(form.records[2].domain, "example.my.id");
}

#[test]
fn dns_form_needs_token_and_domain_id() {
    assert!(parse_dns_form("<input name=\"token\" value=\"t\">", "d").is_none());
    let bare = parse_dns_form("name=\"token\" value=\"t\" name=\"domainid\" value=\"9\"", "d").unwrap();
    assert_eq!(bare.domain_id, "9");
    assert!(bare.records.is_empty());
}

#[test]
fn listing_a_loaded_form() {
    let form = load_dns_form(DNS_HTML, "example.my.id").unwrap();
    let listing = cmd_dns_list(&form);
    assert!(listing.starts_with("{\"domain_id\":\"77\",\"record_count\":3,\"records\":[{\"domain\":\"example.my.id\",\"name\":\"app\",\"fqdn\":\"app.example.my.id\",\"type\":\"CNAME\""));
}

#[test]
fn parses_invoice_rows() {
    let html = "<table><tbody><tr><td><a href='/invoice?id=555'>555</a></td><td>2024-02-01</td><td>2024-02-08</td><td>Rp 100.000</td><td><span class=\"label\">Paid</span></td></tr><tr><td>no invoice</td></tr></tbody></table>";
    let expected = "{\"id\":\"555\",\"invoice_date\":\"2024-02-01\",\"due_date\":\"2024-02-08\",\"total\":\"Rp 100.000\",\"status\":\"Paid\",\"path\":\"/invoice?id=555\"}";
    assert_eq!(parse_invoices_json(html), expected);
    assert_eq!(invoices_report(html), format!("{{\"invoices\":[{}]}}", expected));
    assert_eq!(invoices_report("<p>none</p>"), "{\"invoices\":[]}");
}

#[test]
fn lists_forms_with_field_names() {
    let html = "<form method=\"post\" action=\"/clientarea.php?action=domaindns&amp;x=1\"><input name=\"token\" value=\"a\"><input name='skip'><select name=\"dnsrecordtype[]\"></select></form><form action='/search'><input name=\"q\"></form>";
    let expected = "{\"method\":\"post\",\"action\":\"/clientarea.php?action=domaindns&x=1\",\"field_names\":[\"token\",\"dnsrecordtype[]\"]},{\"method\":\"get\",\"action\":\"/search\",\"field_names\":[\"q\"]}";
    assert_eq!(extract_forms_json(html), expected);
    assert_eq!(
        forms_report("/p", html),
        format!("{{\"path\":\"/p\",\"forms\":[{}]}}", expected)
    );
    assert_eq!(features_forms_path(&strings(&["features", "forms"])), "/clientarea.php");
    assert_eq!(features_forms_path(&strings(&["features", "forms", "--path", "/x"])), "/x");
}

#[test]
fn extracts_text_between_markers() {
    assert_eq!(extract_between("a[b]c[d]", "[", "]"), Some("b".to_string()));
    assert_eq!(extract_between("a[b", "[", "]"), None);
    assert_eq!(extract_between("abc", "[", "]"), None);
    assert_eq!(extract_all_between("a[b]c[d]e[f", "[", "]"), strings(&["b", "d"]));
    assert_eq!(extract_all_between("[]", "[", "]"), strings(&[""]));
}

#[test]
fn reads_attributes_and_inputs() {
    assert_eq!(attr_value("<a href=\"/x\">", "href"), Some("/x".to_string()));
    assert_eq!(attr_value("<a href='/y'>", "href"), Some("/y".to_string()));
    assert_eq!(attr_value("<a>", "href"), None);
    let row = "<td><input class=\"c\" value=\"v1\" name=\"host\"></td><td><input name=\"other\" value=\"v2\"></td>";
    assert_eq!(input_value_after_name(row, "host"), "v1");
    assert_eq!(input_value_after_name(row, "other"), "v2");
    assert_eq!(input_value_after_name(row, "missing"), "");
    assert_eq!(
        selected_option_value("<option value=\"A\">A</option><option value=\"TXT\" selected=\"selected\">"),
        Some("TXT".to_string())
    );
    assert_eq!(selected_option_value("<option value=\"A\">"), None);
}

#[test]
fn cleans_table_cells() {
    assert_eq!(
        clean_html("<span class=\"w-hidden\">2024</span> Jan &amp;  Feb "),
        "Jan & Feb"
    );
    assert_eq!(clean_html(">  a\n b "), "a b");
    assert_eq!(clean_html("plain   text"), "plain text");
    assert_eq!(strip_tags("a<b>c</b>d>e"), "acde");
    assert_eq!(
        html_unescape("&lt;b&gt; &quot;x&quot; &#039;y&#039; a&nbsp;b &amp;lt;"),
        "<b> \"x\" 'y' a b <"
    );
}

#[test]
fn endpoint_candidates_are_deduplicated_domainesia_urls() {
    let text = "\"https://my.domainesia.com/a\",\"https://my.domainesia.com/a\",\"https://example.com/dns\",\"http:\\/\\/my.domainesia.com\\/zone\\/1\",\"not a url\"";
    assert_eq!(
        extract_endpoint_candidates(text),
        strings(&["https://my.domainesia.com/a", "http://my.domainesia.com/zone/1"])
    );
}

#[test]
fn endpoint_candidates_stop_at_thirty() {
    let mut text = String::new();
    for i in 0..40 {
        text.push_str(&format!("\"https://my.domainesia.com/dns/{i}\","));
    }
    let found = extract_endpoint_candidates(&text);
    assert_eq!(found.len(), 30);
    assert_eq!(found[29], "https://my.domainesia.com/dns/29");
}

#[test]
fn har_import_report() {
    assert_eq!(
        har_path(&strings(&["endpoint", "import-har"])),
        Err("usage: domainesia endpoint import-har <path.har>".to_string())
    );
    assert_eq!(
        har_path(&strings(&["endpoint", "import-har", "a.har"])),
        Ok("a.har".to_string())
    );
    assert_eq!(
        har_report("{\"url\":\"https://my.domainesia.com/dns/1\"}"),
        "{\"candidate_count\":1,\"candidates\":[\"https://my.domainesia.com/dns/1\"],\"note\":\"Review candidates manually. Do not store raw cookies or full HAR contents.\"}"
    );
}

#[test]
fn raw_get_is_limited_to_domainesia_hosts() {
    assert_eq!(
        cmd_raw(&strings(&["raw", "get"])),
        Err("usage: domainesia raw get <url>".to_string())
    );
    assert_eq!(
        cmd_raw(&strings(&["raw", "post", "https://my.domainesia.com/"])),
        Err("only raw get is supported without explicit DNS command".to_string())
    );
    let refused = Err("raw get is restricted to domainesia.com URLs".to_string());
    assert_eq!(cmd_raw(&strings(&["raw", "get", "https://evil.example/"])), refused);
    assert_eq!(
        cmd_raw(&strings(&["raw", "get", "https://my.domainesia.com.evil.example/"])),
        refused
    );
    assert_eq!(
        cmd_raw(&strings(&["raw", "get", "https://www.domainesia.com/tos/"])),
        Ok("https://www.domainesia.com/tos/".to_string())
    );
    assert_eq!(
        cmd_raw(&strings(&["raw", "get", "https://my.domainesia.com#top"])),
        Ok("https://my.domainesia.com#top".to_string())
    );
}

#[test]
fn raw_report_previews_first_characters() {
    assert_eq!(
        raw_report("https://my.domainesia.com/", "héllo"),
        "{\"url\":\"https://my.domainesia.com/\",\"bytes\":6,\"preview\":\"héllo\"}"
    );
    let long = "x".repeat(900);
    let report = raw_report("u", &long);
    assert!(report.starts_with("{\"url\":\"u\",\"bytes\":900,\"preview\":\""));
    assert_eq!(report.len(), "{\"url\":\"u\",\"bytes\":900,\"preview\":\"\"}".len() + 800);
    assert_eq!(prefix_chars("héllo", 2), "hé");
    assert_eq!(byte_len("héllo"), 6);
}

#[test]
fn features_list_names_every_surface() {
    let list = features_list_json();
    assert!(list.starts_with("{\"features\":[{\"name\":\"dashboard\",\"path\":\"/clientarea.php\",\"access\":\"read\"},"));
    assert!(list.ends_with("{\"name\":\"security\",\"path\":\"/index.php?rp=/user/security\",\"access\":\"read/write\"}]}"));
    assert_eq!(list.matches("\"name\":").count(), 18);
}

#[test]
fn version_report_is_json() {
    assert_eq!(version_report("0.1.0"), "{\"version\":\"0.1.0\"}");
}

#[test]
fn loading_domains_from_the_list_page() {
    assert_eq!(domains_page(), "/dashboard/domains");
    let ds = load_domains(Ok(DOMAINS_HTML.to_string())).unwrap();
    assert_eq!(ds.len(), 2);
    assert_eq!(ds[0].id, "123");
    match load_domains(Err("GET failed: timeout".to_string())) {
        Err(e) => assert_eq!(e, "GET failed: timeout"),
        Ok(_) => panic!("the error must pass through"),
    }
}
