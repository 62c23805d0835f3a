use domainesia::cli::Config;
use domainesia::dns::{
    apply_add, apply_delete, apply_update, check_live_write, cmd_dns_add, cmd_dns_delete,
    cmd_dns_form_add, cmd_dns_list, cmd_dns_update, csrf_header, dns_add_live_report,
    dns_export_path, dns_export_report,
    dns_live_report, dns_page_path, load_dns_form, parse_record, record_from_type,
    submit_or_preview_dns_form, DnsAddAction, DnsSubmission,
};
use domainesia::model::{dns_form_body, record_json, record_plan_json, records_json, DnsForm, DnsRecord};

fn strings(items: &[&str]) -> Vec<String> {
    items.iter().map(|s| s.to_string()).collect()
}

fn empty_config() -> Config {
    Config::from_text("", &[], "p")
}

fn record(name: &str, record_type: &str, value: &str, priority: Option<u16>) -> DnsRecord {
    DnsRecord {
        domain: "example.my.id".to_string(),
        name: name.to_string(),
        record_type: record_type.to_string(),
        value: value.to_string(),
        ttl: 3600,
        priority,
    }
}

fn sample_form() -> DnsForm {
    DnsForm {
        token: "tok".to_string(),
        domain_id: "77".to_string(),
        records: vec![
            record("app", "A", "192.0.2.10", None),
            record("@", "MX", "mail.example.my.id", Some(10)),
            record("app", "TXT", "second", None),
        ],
    }
}

fn names(records: &[DnsRecord]) -> Vec<String> {
    records.iter().map(|r| r.name.clone()).collect()
}

const APP_JSON: &str = "{\"domain\":\"example.my.id\",\"name\":\"app\",\"fqdn\":\"app.example.my.id\",\"type\":\"A\",\"value\":\"192.0.2.10\",\"ttl\":3600,\"priority\":null}";

#[test]
fn record_json_has_every_field() {
    assert_eq!(record_json(&record("app", "A", "192.0.2.10", None)), APP_JSON);
    assert_eq!(
        record_json(&record("@", "MX", "mail.example.my.id", Some(10))),
        "{\"domain\":\"example.my.id\",\"name\":\"@\",\"fqdn\":\"example.my.id\",\"type\":\"MX\",\"value\":\"mail.example.my.id\",\"ttl\":3600,\"priority\":10}"
    );
}

#[test]
fn records_json_joins_with_commas() {
    let rs = vec![record("app", "A", "192.0.2.10", None), record("b", "TXT", "q\"", None)];
    assert_eq!(
        records_json(&rs),
        format!(
            "{},{}",
            APP_JSON,
            "{\"domain\":\"example.my.id\",\"name\":\"b\",\"fqdn\":\"b.example.my.id\",\"type\":\"TXT\",\"value\":\"q\\\"\",\"ttl\":3600,\"priority\":null}"
        )
    );
    assert_eq!(records_json(&[]), "");
}

#[test]
fn plan_json_never_runs_live() {
    assert_eq!(
        record_plan_json(&record("app", "A", "192.0.2.10", None)),
        format!(
            "{{\"fqdn\":\"app.example.my.id\",\"record\":{},\"steps\":[\"Open MyDomaiNesia DNS Management for the domain\",\"Create or edit the matching record\",\"Verify propagation after save\"],\"safe_to_run_live\":false}}",
            APP_JSON
        )
    );
}

#[test]
fn form_body_encodes_every_record() {
    let form = DnsForm {
        token: "t k".to_string(),
        domain_id: "7".to_string(),
        records: vec![
            record("app", "A", "1.2.3.4", None),
            record("mx", "MX", "mail", Some(10)),
        ],
    };
    assert_eq!(
        dns_form_body(&form),
        "token=t+k&sub=save&domainid=7&dnsrecid%5B%5D=&dnsrecordhost%5B%5D=app&dnsrecordtype%5B%5D=A&dnsrecordaddress%5B%5D=1.2.3.4&dnsrecordpriority%5B%5D=N%2FA&dnsrecid%5B%5D=&dnsrecordhost%5B%5D=mx&dnsrecordtype%5B%5D=MX&dnsrecordaddress%5B%5D=mail&dnsrecordpriority%5B%5D=10"
    );
}

#[test]
fn parse_record_reads_flags_and_upper_cases_type() {
    let args = strings(&[
        "dns", "add", "--domain", "example.my.id", "--name", "app", "--type", "aaaa", "--value",
        "2001:db8::1",
    ]);
    let r = parse_record(&args, &empty_config()).unwrap();
    assert_eq!(r.domain, "example.my.id");
    assert_eq!(r.name, "app");
    assert_eq!(r.record_type, "AAAA");
    assert_eq!(r.value, "2001:db8::1");
    assert_eq!(r.ttl, 3600);
    assert_eq!(r.priority, None);
}

#[test]
fn parse_record_uses_default_domain_ttl_and_priority() {
    let config = Config::from_text("DOMAINESIA_DEFAULT_DOMAIN=example.my.id\n", &[], "p");
    let args = strings(&[
        "dns", "add", "--name", "@", "--type", "Mx", "--value", "mail", "--ttl", "+300",
        "--priority", "20",
    ]);
    let r = parse_record(&args, &config).unwrap();
    assert_eq!(r.domain, "example.my.id");
    assert_eq!(r.record_type, "MX");
    assert_eq!(r.ttl, 300);
    assert_eq!(r.priority, Some(20));
}

#[test]
fn parse_record_errors() {
    let config = empty_config();
    let err = |items: &[&str]| parse_record(&strings(items), &config).err().unwrap();
    assert_eq!(
        err(&["dns", "add", "--name", "a"]),
        "missing --domain and no DOMAINESIA_DEFAULT_DOMAIN configured"
    );
    assert_eq!(err(&["dns", "add", "--domain", "d"]), "missing --name");
    assert_eq!(err(&["dns", "add", "--domain", "d", "--name", "a"]), "missing --type");
    assert_eq!(
        err(&["dns", "add", "--domain", "d", "--name", "a", "--type", "srv", "--value", "v"]),
        "unsupported --type; use A, AAAA, CNAME, TXT, or MX"
    );
    assert_eq!(
        err(&["dns", "add", "--domain", "d", "--name", "a", "--type", "A"]),
        "missing --value"
    );
    assert_eq!(
        err(&["dns", "add", "--domain", "d", "--name", "a", "--type", "A", "--value", "v", "--ttl", "-1"]),
        "--ttl must be a positive integer"
    );
    assert_eq!(
        err(&["dns", "add", "--domain", "d", "--name", "a", "--type", "A", "--value", "v", "--ttl", "4294967296"]),
        "--ttl must be a positive integer"
    );
    assert_eq!(
        err(&["dns", "add", "--domain", "d", "--name", "a", "--type", "A", "--value", "v", "--priority", "70000"]),
        "--priority must be an integer"
    );
}

#[test]
fn record_from_type_takes_the_type_as_given() {
    let args = strings(&["--value", "v", "--ttl", "4294967295"]);
    let r = record_from_type(&args, "d", "n", "CNAME").unwrap();
    assert_eq!(r.record_type, "CNAME");
    assert_eq!(r.ttl, 4294967295);
    assert_eq!(
        record_from_type(&args, "d", "n", "cname").err(),
        Some("unsupported --type; use A, AAAA, CNAME, TXT, or MX".to_string())
    );
}

#[test]
fn add_appends_new_names() {
    let rs = apply_add(sample_form().records, record("www", "CNAME", "app", None), false).unwrap();
    assert_eq!(names(&rs), strings(&["app", "@", "app", "www"]));
}

#[test]
fn add_refuses_existing_name_without_replace() {
    let r = apply_add(sample_form().records, record("app", "A", "192.0.2.99", None), false);
    assert_eq!(
        r.err(),
        Some("record name already exists; use dns update or pass --replace".to_string())
    );
}

#[test]
fn add_with_replace_replaces_first_record_of_the_name() {
    let rs = apply_add(sample_form().records, record("app", "A", "192.0.2.99", None), true).unwrap();
    assert_eq!(names(&rs), strings(&["app", "@", "app"]));
    assert_eq!(rs[0].value, "192.0.2.99");
    assert_eq!(rs[2].value, "second");
}

#[test]
fn update_changes_first_record_only() {
    let (rs, u) = apply_update(sample_form().records, "app", Some("192.0.2.11"), Some("CNAME"), Some("5"))
        .unwrap();
    assert_eq!(u.value, "192.0.2.11");
    assert_eq!(u.record_type, "CNAME");
    assert_eq!(u.priority, Some(5));
    assert_eq!(u.ttl, 3600);
    assert_eq!(rs[0].value, "192.0.2.11");
    assert_eq!(rs[1].value, "mail.example.my.id");
    assert_eq!(rs[2].value, "second");
}

#[test]
fn update_with_bad_priority_clears_it() {
    let (_, u) = apply_update(sample_form().records, "@", None, None, Some("high")).unwrap();
    assert_eq!(u.priority, None);
    assert_eq!(u.value, "mail.example.my.id");
    assert_eq!(u.record_type, "MX");
}

#[test]
fn update_of_missing_record_fails() {
    assert_eq!(
        apply_update(sample_form().records, "nope", Some("x"), None, None).err(),
        Some("record not found".to_string())
    );
}

#[test]
fn delete_removes_every_record_of_the_name() {
    let (rs, deleted) = apply_delete(sample_form().records, "app").unwrap();
    assert_eq!(names(&rs), strings(&["@"]));
    assert_eq!(deleted.value, "192.0.2.10");
    assert_eq!(
        apply_delete(sample_form().records, "nope").err(),
        Some("record not found".to_string())
    );
}

#[test]
fn add_then_delete_restores_other_records() {
    let rs = apply_add(sample_form().records, record("www", "CNAME", "app", None), false).unwrap();
    let (after, deleted) = apply_delete(rs, "www").unwrap();
    assert_eq!(names(&after), strings(&["app", "@", "app"]));
    assert_eq!(deleted.name, "www");
    assert_eq!(deleted.value, "app");
}

#[test]
fn form_add_through_command_line() {
    let args = strings(&[
        "dns", "add", "--domain", "example.my.id", "--name", "app", "--type", "a", "--value",
        "192.0.2.99", "--replace",
    ]);
    let change = cmd_dns_form_add(&args, &empty_config(), sample_form()).unwrap();
    assert_eq!(change.form.token, "tok");
    assert_eq!(change.form.domain_id, "77");
    assert_eq!(change.form.records[0].value, "192.0.2.99");
    assert_eq!(change.form.records.len(), 3);
    assert_eq!(change.changed.unwrap().value, "192.0.2.99");
    let no_replace = strings(&[
        "dns", "add", "--domain", "example.my.id", "--name", "app", "--type", "A", "--value", "x",
    ]);
    assert_eq!(
        cmd_dns_form_add(&no_replace, &empty_config(), sample_form()).err(),
        Some("record name already exists; use dns update or pass --replace".to_string())
    );
}

#[test]
fn update_through_command_line() {
    let args = strings(&["dns", "update", "--name", "app", "--type", "cname", "--value", "target"]);
    let change = cmd_dns_update(&args, sample_form()).unwrap();
    let u = change.changed.unwrap();
    assert_eq!(u.record_type, "CNAME");
    assert_eq!(u.value, "target");
    assert_eq!(change.form.records[0].record_type, "CNAME");
    assert_eq!(
        cmd_dns_update(&strings(&["dns", "update"]), sample_form()).err(),
        Some("missing --name".to_string())
    );
}

#[test]
fn delete_through_command_line() {
    let change = cmd_dns_delete(&strings(&["dns", "delete", "--name", "@"]), sample_form()).unwrap();
    assert_eq!(names(&change.form.records), strings(&["app", "app"]));
    assert_eq!(change.changed.unwrap().record_type, "MX");
    assert_eq!(
        cmd_dns_delete(&strings(&["dns", "delete", "--name", "zzz"]), sample_form()).err(),
        Some("record not found".to_string())
    );
}

#[test]
fn dns_list_report() {
    let form = DnsForm {
        token: "t".to_string(),
        domain_id: "77".to_string(),
        records: vec![record("app", "A", "192.0.2.10", None)],
    };
    assert_eq!(
        cmd_dns_list(&form),
        format!("{{\"domain_id\":\"77\",\"record_count\":1,\"records\":[{}]}}", APP_JSON)
    );
}

#[test]
fn page_path_and_missing_form() {
    assert_eq!(dns_page_path("77"), "/clientarea.php?action=domaindns&domainid=77");
    assert_eq!(
        load_dns_form("<html></html>", "example.my.id").err(),
        Some("failed to parse DNS management form".to_string())
    );
}

fn app_change() -> domainesia::dns::DnsChange {
    let args = strings(&[
        "dns", "add", "--domain", "example.my.id", "--name", "www", "--type", "A", "--value",
        "192.0.2.20",
    ]);
    cmd_dns_form_add(&args, &empty_config(), sample_form()).unwrap()
}

#[test]
fn dry_run_is_the_default() {
    let change = app_change();
    let args = strings(&["dns", "add", "--name", "www"]);
    match submit_or_preview_dns_form(&args, &change, true).unwrap() {
        DnsSubmission::Preview { report } => assert_eq!(
            report,
            "{\"mode\":\"dry-run\",\"domain_id\":\"77\",\"record_count\":4,\"changed\":{\"domain\":\"example.my.id\",\"name\":\"www\",\"fqdn\":\"www.example.my.id\",\"type\":\"A\",\"value\":\"192.0.2.20\",\"ttl\":3600,\"priority\":null},\"post_path\":\"/clientarea.php?action=domaindns\"}"
        ),
        DnsSubmission::Post { .. } => panic!("a dry run must not post"),
    }
}

#[test]
fn live_write_needs_permission_and_confirmation() {
    let change = app_change();
    let live = strings(&["dns", "add", "--live", "--confirm", "www.example.my.id"]);
    assert_eq!(
        submit_or_preview_dns_form(&live, &change, false).err(),
        Some("live DNS writes require DOMAINESIA_ALLOW_LIVE_WRITES=1".to_string())
    );
    let wrong = strings(&["dns", "add", "--live", "--confirm", "www"]);
    assert_eq!(
        submit_or_preview_dns_form(&wrong, &change, true).err(),
        Some("live DNS writes require --confirm <fqdn> of the changed record".to_string())
    );
    let missing = strings(&["dns", "add", "--live"]);
    assert_eq!(
        submit_or_preview_dns_form(&missing, &change, true).err(),
        Some("live DNS writes require --confirm <fqdn> of the changed record".to_string())
    );
    match submit_or_preview_dns_form(&live, &change, true).unwrap() {
        DnsSubmission::Post { path, body, backup } => {
            assert_eq!(path, "/clientarea.php?action=domaindns");
            assert_eq!(body, dns_form_body(&change.form));
            assert!(body.contains("dnsrecordhost%5B%5D=www"));
            assert_eq!(backup, cmd_dns_list(&sample_form()));
            assert!(backup.contains("\"record_count\":3"));
        }
        DnsSubmission::Preview { .. } => panic!("a confirmed live write must post"),
    }
}

#[test]
fn check_live_write_without_changed_record() {
    assert_eq!(
        check_live_write(&strings(&["--confirm", "x"]), &None, true),
        Some("live DNS writes require --confirm <fqdn> of the changed record".to_string())
    );
    let r = Some(record("@", "A", "1.2.3.4", None));
    assert_eq!(check_live_write(&strings(&["--confirm", "example.my.id"]), &r, true), None);
}

#[test]
fn live_report_hints_success() {
    let form = sample_form();
    assert_eq!(
        dns_live_report(&form, "<h1>Changes Saved</h1>"),
        "{\"mode\":\"live\",\"domain_id\":\"77\",\"record_count\":3,\"success_hint\":true,\"response_bytes\":22}"
    );
    assert_eq!(
        dns_live_report(&form, "é"),
        "{\"mode\":\"live\",\"domain_id\":\"77\",\"record_count\":3,\"success_hint\":false,\"response_bytes\":2}"
    );
}

#[test]
fn endpoint_add_is_form_add_without_endpoint() {
    let args = strings(&["dns", "add", "--name", "a"]);
    assert!(matches!(cmd_dns_add(&args, &empty_config(), false, false, true, true), Ok(DnsAddAction::ThroughForm)));
}

#[test]
fn endpoint_add_must_be_enabled() {
    let args = strings(&["dns", "add", "--endpoint", "https://my.domainesia.com/api"]);
    assert_eq!(
        cmd_dns_add(&args, &empty_config(), false, true, true, true).err(),
        Some("endpoint-driven DNS mode is experimental; set DOMAINESIA_ENABLE_EXPERIMENTAL_ENDPOINTS=1".to_string())
    );
}

#[test]
fn endpoint_add_dry_run_and_live() {
    let base = [
        "dns", "add", "--endpoint", "https://my.domainesia.com/api", "--domain", "example.my.id",
        "--name", "app", "--type", "A", "--value", "192.0.2.10",
    ];
    match cmd_dns_add(&strings(&base), &empty_config(), true, false, true, true).unwrap() {
        DnsAddAction::Preview { report } => assert_eq!(
            report,
            format!(
                "{{\"mode\":\"dry-run\",\"ready_for_live\":true,\"endpoint_configured\":true,\"record\":{}}}",
                APP_JSON
            )
        ),
        _ => panic!("expected a dry run"),
    }
    let mut live: Vec<&str> = base.to_vec();
    live.push("--live");
    assert_eq!(
        cmd_dns_add(&strings(&live), &empty_config(), true, true, true, true).err(),
        Some("live add requires DOMAINESIA_COOKIE_JAR in config".to_string())
    );
    let config = Config::from_text(
        "DOMAINESIA_COOKIE_JAR=/j\nDOMAINESIA_CSRF_HEADER=X-CSRF-TOKEN\nDOMAINESIA_CSRF_TOKEN=abc\n",
        &[],
        "p",
    );
    assert_eq!(
        cmd_dns_add(&strings(&live), &config, true, true, true, true).err(),
        Some("live DNS writes require --confirm <fqdn> of the changed record".to_string())
    );
    live.push("--confirm");
    live.push("app.example.my.id");
    assert_eq!(
        cmd_dns_add(&strings(&live), &config, true, false, true, true).err(),
        Some("live DNS writes require DOMAINESIA_ALLOW_LIVE_WRITES=1".to_string())
    );
    match cmd_dns_add(&strings(&live), &config, true, true, true, true).unwrap() {
        DnsAddAction::Post { endpoint, cookie_jar, payload, csrf, record } => {
            assert_eq!(endpoint, "https://my.domainesia.com/api");
            assert_eq!(cookie_jar, "/j");
            assert_eq!(payload, APP_JSON);
            assert_eq!(csrf, Some("X-CSRF-TOKEN: abc".to_string()));
            assert_eq!(record.name, "app");
        }
        _ => panic!("expected a live post"),
    }
    let mut both = live.clone();
    both.push("--dry-run");
    assert!(matches!(
        cmd_dns_add(&strings(&both), &config, true, true, true, true),
        Ok(DnsAddAction::Preview { .. })
    ));
}

#[test]
fn endpoint_live_add_without_endpoint_value() {
    let config = Config::from_text("DOMAINESIA_DNS_ADD_ENDPOINT=https://e\n", &[], "p");
    let args = strings(&[
        "dns", "add", "--domain", "d", "--name", "n", "--type", "A", "--value", "v", "--live",
    ]);
    match cmd_dns_add(&args, &config, true, true, true, true) {
        Err(e) => assert_eq!(e, "live add requires DOMAINESIA_COOKIE_JAR in config"),
        _ => panic!("expected an error"),
    }
    let flag_only = strings(&["dns", "add", "--domain", "d", "--name", "n", "--type", "A", "--value", "v", "--live", "--endpoint"]);
    assert_eq!(
        cmd_dns_add(&flag_only, &empty_config(), true, true, true, true).err(),
        Some("live add requires --endpoint or DOMAINESIA_DNS_ADD_ENDPOINT".to_string())
    );
}

#[test]
fn endpoint_live_report_shows_no_answer_text() {
    assert_eq!(
        dns_add_live_report(&record("app", "A", "192.0.2.10", None), " secret html "),
        format!("{{\"mode\":\"live\",\"record\":{},\"response_bytes\":13}}", APP_JSON)
    );
}

#[test]
fn csrf_header_needs_both_settings() {
    let both = Config::from_text("DOMAINESIA_CSRF_HEADER=X\nDOMAINESIA_CSRF_TOKEN=t\n", &[], "p");
    assert_eq!(csrf_header(&both), Some("X: t".to_string()));
    let one = Config::from_text("DOMAINESIA_CSRF_TOKEN=t\n", &[], "p");
    assert_eq!(csrf_header(&one), None);
}

#[test]
fn export_needs_an_output_file() {
    assert_eq!(
        dns_export_path(&strings(&["dns", "export", "--domain", "d"])),
        Err("missing --output <file>".to_string())
    );
    assert_eq!(
        dns_export_path(&strings(&["dns", "export", "--output", "./dns-backup.json"])),
        Ok("./dns-backup.json".to_string())
    );
    assert_eq!(
        dns_export_report(&sample_form(), "./dns-backup.json"),
        "{\"domain_id\":\"77\",\"record_count\":3,\"output\":\"./dns-backup.json\"}"
    );
}

#[test]
fn changes_carry_a_backup_of_the_form_before() {
    let change = cmd_dns_delete(&strings(&["dns", "delete", "--name", "app"]), sample_form()).unwrap();
    assert_eq!(change.backup, cmd_dns_list(&sample_form()));
    assert_eq!(change.form.records.len(), 1);
    let update = cmd_dns_update(&strings(&["dns", "update", "--name", "@", "--value", "m2"]), sample_form()).unwrap();
    assert_eq!(update.backup, cmd_dns_list(&sample_form()));
}

#[test]
fn endpoint_live_add_needs_readable_jar_and_curl() {
    let config = Config::from_text("DOMAINESIA_COOKIE_JAR=/j\n", &[], "p");
    let args = strings(&[
        "dns", "add", "--endpoint", "https://e", "--domain", "example.my.id", "--name", "app",
        "--type", "A", "--value", "v", "--live", "--confirm", "app.example.my.id",
    ]);
    assert_eq!(
        cmd_dns_add(&args, &config, true, true, false, true).err(),
        Some("configured cookie jar is not readable".to_string())
    );
    assert_eq!(
        cmd_dns_add(&args, &config, true, true, true, false).err(),
        Some("curl is required for live requests".to_string())
    );
    assert!(matches!(cmd_dns_add(&args, &config, true, true, true, true), Ok(DnsAddAction::Post { .. })));
}
