use domainesia::cli::{
    absolute_domainesia_url, current_command_name, has_flag, override_keys, parse_opts,
    upsert_config_content, value_after, Config,
};
use domainesia::commands::{error_output, ok_output, run, Command};

fn strings(items: &[&str]) -> Vec<String> {
    items.iter().map(|s| s.to_string()).collect()
}

fn pairs(items: &[(&str, &str)]) -> Vec<(String, String)> {
    items
        .iter()
        .map(|(k, v)| (k.to_string(), v.to_string()))
        .collect()
}

#[test]
fn parse_opts_takes_out_every_json_switch() {
    let opts = parse_opts(strings(&["--json", "dns", "--json", "list"]));
    assert!(opts.json);
    assert_eq!(opts.args, strings(&["dns", "list"]));
    let plain = parse_opts(strings(&["doctor"]));
    assert!(!plain.json);
    assert_eq!(plain.args, strings(&["doctor"]));
}

#[test]
fn flags_and_their_values() {
    let args = strings(&["dns", "add", "--name", "app", "--name", "other", "--live"]);
    assert!(has_flag(&args, "--live"));
    assert!(!has_flag(&args, "--dry-run"));
    assert_eq!(value_after(&args, "--name"), Some("app"));
    assert_eq!(value_after(&args, "--live"), None);
    assert_eq!(value_after(&args, "--type"), None);
}

#[test]
fn command_name_is_first_two_arguments() {
    assert_eq!(current_command_name(&strings(&["dns", "add", "--name", "x"])), "dns add");
    assert_eq!(current_command_name(&strings(&["doctor"])), "doctor");
    assert_eq!(current_command_name(&strings(&[])), "");
}

#[test]
fn absolute_url_accepts_exact_host_and_paths() {
    assert_eq!(
        absolute_domainesia_url("/clientarea.php").unwrap(),
        "https://my.domainesia.com/clientarea.php"
    );
    assert_eq!(
        absolute_domainesia_url("https://my.domainesia.com").unwrap(),
        "https://my.domainesia.com"
    );
    assert_eq!(
        absolute_domainesia_url("https://my.domainesia.com?x=1").unwrap(),
        "https://my.domainesia.com?x=1"
    );
    assert_eq!(
        absolute_domainesia_url("https://my.domainesia.com/dashboard/domains").unwrap(),
        "https://my.domainesia.com/dashboard/domains"
    );
}

#[test]
fn absolute_url_refuses_other_hosts() {
    let expected = Err("URL/path must target my.domainesia.com".to_string());
    assert_eq!(absolute_domainesia_url("https://my.domainesia.com.evil.example/x"), expected);
    assert_eq!(absolute_domainesia_url("https://evil.example/"), expected);
    assert_eq!(absolute_domainesia_url("clientarea.php"), expected);
}

#[test]
fn config_reads_trimmed_settings_and_skips_comments() {
    let text = "# comment=1\n  DOMAINESIA_DEFAULT_DOMAIN = example.my.id \n\nnot a setting\nA=1=2\r\n#B=3\n";
    let config = Config::from_text(text, &[], "/home/u/.domainesia/config.env");
    assert_eq!(config.get("DOMAINESIA_DEFAULT_DOMAIN"), Some("example.my.id"));
    assert_eq!(config.get("A"), Some("1=2"));
    assert_eq!(config.get("#B"), None);
    assert_eq!(config.get("# comment"), None);
    assert_eq!(config.get("not a setting"), None);
    assert_eq!(config.path, "/home/u/.domainesia/config.env");
}

#[test]
fn environment_overrides_file() {
    let text = "DOMAINESIA_BASE_URL=https://file.example\nDOMAINESIA_COOKIE_JAR=/file/jar\n";
    let overrides = pairs(&[("DOMAINESIA_BASE_URL", "https://env.example")]);
    let config = Config::from_text(text, &overrides, "p");
    assert_eq!(config.get("DOMAINESIA_BASE_URL"), Some("https://env.example"));
    assert_eq!(config.get("DOMAINESIA_COOKIE_JAR"), Some("/file/jar"));
}

#[test]
fn later_line_of_a_key_wins() {
    let config = Config::from_text("K=1\nK=2\n", &[], "p");
    assert_eq!(config.get("K"), Some("2"));
}

#[test]
fn override_keys_are_the_cli_settings() {
    assert_eq!(
        override_keys(),
        strings(&[
            "DOMAINESIA_BASE_URL",
            "DOMAINESIA_DEFAULT_DOMAIN",
            "DOMAINESIA_COOKIE_JAR",
            "DOMAINESIA_LOGIN_ENDPOINT",
            "DOMAINESIA_DNS_ADD_ENDPOINT",
            "DOMAINESIA_CSRF_HEADER",
            "DOMAINESIA_CSRF_TOKEN",
        ])
    );
}

#[test]
fn upsert_keeps_order_and_takes_last_values() {
    let existing = "A=1\nB=2\n# note\nA=3\n";
    let updates = pairs(&[("C", "x"), ("B", "y")]);
    assert_eq!(upsert_config_content(existing, &updates), "A=3\nB=y\nC=x\n");
}

#[test]
fn upsert_into_empty_file() {
    let updates = pairs(&[("DOMAINESIA_COOKIE_JAR", "/home/u/.domainesia/cookies.txt")]);
    assert_eq!(
        upsert_config_content("", &updates),
        "DOMAINESIA_COOKIE_JAR=/home/u/.domainesia/cookies.txt\n"
    );
}

#[test]
fn upsert_trims_kept_lines_and_keeps_commented_settings() {
    let existing = "  K =  v  \n# old=1\nno equals sign\n";
    assert_eq!(upsert_config_content(existing, &[]), "K=v\n# old=1\n");
}

#[test]
fn written_settings_read_back() {
    let existing = "DOMAINESIA_BASE_URL=https://my.domainesia.com\n#X=1\nDOMAINESIA_COOKIE_JAR=/old\n";
    let updates = pairs(&[
        ("DOMAINESIA_COOKIE_JAR", "/new/jar"),
        ("DOMAINESIA_CSRF_TOKEN", "abc"),
        ("DOMAINESIA_CSRF_TOKEN", "def"),
    ]);
    let written = upsert_config_content(existing, &updates);
    let config = Config::from_text(&written, &[], "p");
    assert_eq!(config.get("DOMAINESIA_COOKIE_JAR"), Some("/new/jar"));
    assert_eq!(config.get("DOMAINESIA_CSRF_TOKEN"), Some("def"));
    assert_eq!(config.get("DOMAINESIA_BASE_URL"), Some("https://my.domainesia.com"));
    assert_eq!(config.get("#X"), None);
}

#[test]
fn run_routes_commands() {
    assert!(matches!(run(&strings(&[])), Ok(Command::Help)));
    assert!(matches!(run(&strings(&["dns", "list", "-h"])), Ok(Command::Help)));
    assert!(matches!(run(&strings(&["doctor", "--help"])), Ok(Command::Help)));
    assert!(matches!(run(&strings(&["version"])), Ok(Command::Version)));
    assert!(matches!(run(&strings(&["doctor"])), Ok(Command::Doctor)));
    assert!(matches!(run(&strings(&["init"])), Ok(Command::Init)));
    assert!(matches!(run(&strings(&["features"])), Ok(Command::FeaturesList)));
    assert!(matches!(run(&strings(&["features", "forms"])), Ok(Command::FeaturesForms)));
    assert!(matches!(run(&strings(&["auth", "status"])), Ok(Command::AuthStatus)));
    assert!(matches!(run(&strings(&["auth", "login"])), Ok(Command::AuthLogin)));
    assert!(matches!(run(&strings(&["domains", "detail"])), Ok(Command::DomainsDetail)));
    assert!(matches!(run(&strings(&["dns", "plan-add"])), Ok(Command::DnsPlanAdd)));
    assert!(matches!(run(&strings(&["dns", "delete"])), Ok(Command::DnsDelete)));
    assert!(matches!(run(&strings(&["dns", "export"])), Ok(Command::DnsExport)));
    assert!(matches!(run(&strings(&["auth", "logout"])), Ok(Command::AuthLogout)));
    assert!(matches!(run(&strings(&["invoices", "list"])), Ok(Command::InvoicesList)));
    assert!(matches!(run(&strings(&["endpoint", "import-har"])), Ok(Command::EndpointImportHar)));
    assert!(matches!(run(&strings(&["raw"])), Ok(Command::Raw)));
}

#[test]
fn run_reports_usage_errors() {
    assert_eq!(run(&strings(&["nope"])).err(), Some("unknown command: nope".to_string()));
    assert_eq!(
        run(&strings(&["auth"])).err(),
        Some("usage: domainesia auth <status|open-login|import-cookies|configure|login> ...".to_string())
    );
    assert_eq!(
        run(&strings(&["features", "x"])).err(),
        Some("usage: domainesia features <list|forms> [--path <path>]".to_string())
    );
    assert_eq!(
        run(&strings(&["domains"])).err(),
        Some("usage: domainesia domains <list|resolve|detail> [--domain <domain>]".to_string())
    );
    assert_eq!(
        run(&strings(&["dns", "zone"])).err(),
        Some("usage: domainesia dns <list|plan-add|add|update|delete> ...".to_string())
    );
    assert_eq!(
        run(&strings(&["invoices"])).err(),
        Some("usage: domainesia invoices list".to_string())
    );
    assert_eq!(
        run(&strings(&["endpoint"])).err(),
        Some("usage: domainesia endpoint import-har <path.har>".to_string())
    );
}

#[test]
fn output_envelopes() {
    assert_eq!(
        ok_output(true, "dns list", "{}"),
        "{\"ok\":true,\"command\":\"dns list\",\"data\":{}}"
    );
    assert_eq!(ok_output(false, "dns list", "{}"), "{}");
    assert_eq!(
        error_output(true, "dns add", "bad \"x\"\n"),
        "{\"ok\":false,\"command\":\"dns add\",\"error\":{\"message\":\"bad \\\"x\\\"\\n\"}}"
    );
    assert_eq!(error_output(false, "dns add", "bad"), "error: bad");
}
