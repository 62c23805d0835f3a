use domainesia::account::{
    browser_login_report, cmd_auth_browser_login, cmd_auth_configure, cmd_auth_import_cookies,
    cmd_auth_login, cmd_auth_logout, cmd_auth_open_login, cmd_auth_status, cmd_doctor, cmd_init, configure_report,
    get_or, import_cookies_report, login_payload, login_report, login_url, logout_report,
    open_login_report,
    value_or, LoginAction,
};
use domainesia::cli::Config;

fn strings(items: &[&str]) -> Vec<String> {
    items.iter().map(|s| s.to_string()).collect()
}

fn config(text: &str) -> Config {
    Config::from_text(text, &[], "/home/u/.domainesia/config.env")
}

#[test]
fn doctor_reports_presence_only() {
    let c = config("DOMAINESIA_COOKIE_JAR=/tmp/jar\nDOMAINESIA_CSRF_TOKEN=secret-token\n");
    assert_eq!(
        cmd_doctor(&c, "1.2.3", true, false, true),
        "{\"version\":\"1.2.3\",\"config_path\":\"/home/u/.domainesia/config.env\",\"config_exists\":true,\"base_url\":\"https://my.domainesia.com\",\"default_domain\":\"\",\"cookie_jar_configured\":true,\"cookie_jar_readable\":false,\"login_endpoint_configured\":false,\"dns_add_endpoint_configured\":false,\"csrf_token_configured\":true,\"curl_available\":true}"
    );
}

#[test]
fn doctor_and_status_hide_secret_values() {
    let a = config("DOMAINESIA_COOKIE_JAR=/a/jar\nDOMAINESIA_CSRF_TOKEN=first\nDOMAINESIA_LOGIN_ENDPOINT=https://a\n");
    let b = config("DOMAINESIA_COOKIE_JAR=/b/jar\nDOMAINESIA_CSRF_TOKEN=second\nDOMAINESIA_LOGIN_ENDPOINT=https://b\n");
    assert_eq!(cmd_doctor(&a, "v", true, true, true), cmd_doctor(&b, "v", true, true, true));
    assert_eq!(cmd_auth_status(&a, true, 5), cmd_auth_status(&b, true, 5));
    assert!(!cmd_doctor(&a, "v", true, true, true).contains("first"));
}

#[test]
fn auth_status_report() {
    let c = config("DOMAINESIA_BASE_URL=https://my.domainesia.com/\nDOMAINESIA_COOKIE_JAR=/j\n");
    assert_eq!(
        cmd_auth_status(&c, true, 42),
        "{\"base_url\":\"https://my.domainesia.com/\",\"cookie_jar_configured\":true,\"cookie_jar_readable\":true,\"cookie_jar_bytes\":42,\"login_endpoint_configured\":false,\"csrf_token_configured\":false}"
    );
}

#[test]
fn init_writes_three_settings() {
    let plan = cmd_init(
        &strings(&["init", "--domain", "example.my.id"]),
        "/h/.domainesia/config.env",
        "/h/.domainesia/cookies.txt",
    )
    .unwrap();
    assert_eq!(
        plan.content,
        "DOMAINESIA_BASE_URL=https://my.domainesia.com\nDOMAINESIA_DEFAULT_DOMAIN=example.my.id\nDOMAINESIA_COOKIE_JAR=/h/.domainesia/cookies.txt\n"
    );
    assert_eq!(
        plan.report,
        "{\"config_path\":\"/h/.domainesia/config.env\",\"default_domain\":\"example.my.id\",\"base_url\":\"https://my.domainesia.com\"}"
    );
    let custom = cmd_init(
        &strings(&["init", "--domain", "d.id", "--base-url", "https://alt"]),
        "c",
        "j",
    )
    .unwrap();
    assert_eq!(
        custom.content,
        "DOMAINESIA_BASE_URL=https://alt\nDOMAINESIA_DEFAULT_DOMAIN=d.id\nDOMAINESIA_COOKIE_JAR=j\n"
    );
    match cmd_init(&strings(&["init"]), "c", "j") {
        Err(e) => assert_eq!(e, "missing --domain, for example: --domain example.my.id"),
        Ok(_) => panic!("--domain is needed"),
    }
}

#[test]
fn login_page_choice() {
    let empty = config("");
    assert_eq!(login_url(&strings(&["auth", "open-login"]), &empty), "https://my.domainesia.com");
    let c = config("DOMAINESIA_BASE_URL=https://base\n");
    assert_eq!(login_url(&strings(&["auth", "open-login"]), &c), "https://base");
    assert_eq!(login_url(&strings(&["auth", "open-login", "--url", "https://u"]), &c), "https://u");
    let plan = cmd_auth_open_login(&strings(&["auth", "open-login", "--no-open"]), &c);
    assert_eq!(plan.url, "https://base");
    assert!(!plan.open);
    assert!(cmd_auth_open_login(&strings(&["auth", "open-login"]), &c).open);
    assert_eq!(
        open_login_report("https://u", false),
        "{\"login_url\":\"https://u\",\"opened\":false,\"next\":\"Log in manually, then export/copy cookies to the configured cookie jar or use auth import-cookies.\"}"
    );
}

#[test]
fn browser_login_defaults_and_flags() {
    let empty = config("");
    let plan = cmd_auth_browser_login(&strings(&["auth", "browser-login"]), &empty, true, "/h/jar", "/h/profile").unwrap();
    assert_eq!(plan.login_url, "https://my.domainesia.com");
    assert_eq!(plan.timeout_seconds, "180");
    assert_eq!(plan.port, "9229");
    assert_eq!(plan.wait_url_part, "clientarea.php");
    assert_eq!(plan.cookie_jar, "/h/jar");
    assert_eq!(plan.profile_dir, "/h/profile");
    let c = config("DOMAINESIA_COOKIE_JAR=/cfg/jar\n");
    let args = strings(&[
        "auth", "browser-login", "--timeout-seconds", "60", "--port", "9333", "--profile-dir", "/p",
    ]);
    let custom = cmd_auth_browser_login(&args, &c, true, "/h/jar", "/h/profile").unwrap();
    assert_eq!(custom.timeout_seconds, "60");
    assert_eq!(custom.port, "9333");
    assert_eq!(custom.cookie_jar, "/cfg/jar");
    assert_eq!(custom.profile_dir, "/p");
    assert_eq!(
        browser_login_report("/j", " {\"cookieCount\":2}\n"),
        "{\"cookie_jar\":\"/j\",\"helper_response\":{\"cookieCount\":2},\"note\":\"Cookie jar captured from dedicated Chrome profile. Run auth status next.\"}"
    );
}

#[test]
fn import_cookies_source_and_target() {
    let c = config("DOMAINESIA_COOKIE_JAR=/cfg/jar\n");
    match cmd_auth_import_cookies(&strings(&["auth", "import-cookies"]), &c, true, "/h/jar") {
        Err(e) => assert_eq!(e, "missing --from <cookies.txt>"),
        Ok(_) => panic!("--from is needed"),
    }
    let plan = cmd_auth_import_cookies(&strings(&["auth", "import-cookies", "--from", "a.txt"]), &c, true, "/h/jar").unwrap();
    assert_eq!(plan.source, Some("a.txt".to_string()));
    assert_eq!(plan.target, "/cfg/jar");
    let to = cmd_auth_import_cookies(
        &strings(&["auth", "import-cookies", "--from", "a.txt", "--to", "/x"]),
        &config(""),
        true,
        "/h/jar",
    )
    .unwrap();
    assert_eq!(to.target, "/x");
    let default = cmd_auth_import_cookies(&strings(&["auth", "import-cookies", "--from", "a"]), &config(""), true, "/h/jar").unwrap();
    assert_eq!(default.target, "/h/jar");
    assert_eq!(import_cookies_report("/x"), "{\"cookie_jar\":\"/x\",\"imported\":true}");
    let stdin = cmd_auth_import_cookies(
        &strings(&["auth", "import-cookies", "--from-stdin", "--to", "/y"]),
        &c,
        false,
        "/h/jar",
    )
    .unwrap();
    assert_eq!(stdin.source, None);
    assert_eq!(stdin.target, "/y");
}

#[test]
fn logout_removes_jar_and_profile() {
    let c = config("DOMAINESIA_COOKIE_JAR=/cfg/jar\n");
    let plan = cmd_auth_logout(&strings(&["auth", "logout"]), &c, "/h/jar", "/h/profile");
    assert_eq!(plan.cookie_jar, "/cfg/jar");
    assert_eq!(plan.profile_dir, Some("/h/profile".to_string()));
    let only = cmd_auth_logout(&strings(&["auth", "logout", "--cookie-only"]), &config(""), "/h/jar", "/h/profile");
    assert_eq!(only.cookie_jar, "/h/jar");
    assert_eq!(only.profile_dir, None);
    let custom = cmd_auth_logout(&strings(&["auth", "logout", "--profile-dir", "/p"]), &config(""), "/h/jar", "/h/profile");
    assert_eq!(custom.profile_dir, Some("/p".to_string()));
    assert_eq!(
        logout_report("/h/jar", true, Some("/h/profile"), false),
        "{\"cookie_jar\":\"/h/jar\",\"cookie_jar_removed\":true,\"profile_dir\":\"/h/profile\",\"profile_removed\":false}"
    );
    assert_eq!(
        logout_report("/h/jar", false, None, false),
        "{\"cookie_jar\":\"/h/jar\",\"cookie_jar_removed\":false,\"profile_dir\":null,\"profile_removed\":false}"
    );
}

#[test]
fn configure_collects_settings_in_flag_order() {
    let updates = cmd_auth_configure(&strings(&[
        "auth", "configure", "--csrf-token", "t", "--login-endpoint", "https://x",
    ]))
    .unwrap();
    assert_eq!(
        updates,
        vec![
            ("DOMAINESIA_LOGIN_ENDPOINT".to_string(), "https://x".to_string()),
            ("DOMAINESIA_CSRF_TOKEN".to_string(), "t".to_string()),
        ]
    );
    assert_eq!(
        configure_report(&updates),
        "{\"updated_keys\":[\"DOMAINESIA_LOGIN_ENDPOINT\",\"DOMAINESIA_CSRF_TOKEN\"]}"
    );
    assert_eq!(
        cmd_auth_configure(&strings(&["auth", "configure"])),
        Err("nothing to configure; pass --login-endpoint, --dns-add-endpoint, --csrf-header, --csrf-token, or --cookie-jar".to_string())
    );
}

#[test]
fn login_is_experimental() {
    match cmd_auth_login(&strings(&["auth", "login", "--live"]), &config(""), false, true, "/h/jar") {
        Err(e) => assert_eq!(
            e,
            "auth login is experimental; set DOMAINESIA_ENABLE_EXPERIMENTAL_ENDPOINTS=1 to enable it"
        ),
        Ok(_) => panic!("login must be enabled first"),
    }
}

#[test]
fn login_dry_run_report() {
    match cmd_auth_login(&strings(&["auth", "login", "--email", "a@b.c"]), &config(""), true, true, "/h/jar").unwrap() {
        LoginAction::Preview { report } => assert_eq!(
            report,
            "{\"mode\":\"dry-run\",\"ready_for_live\":false,\"endpoint_configured\":false,\"email_provided\":true,\"password_source\":\"missing\"}"
        ),
        LoginAction::Live { .. } => panic!("no --live"),
    }
    let ready = config("DOMAINESIA_LOGIN_ENDPOINT=https://login\n");
    match cmd_auth_login(&strings(&["auth", "login", "--email", "a@b.c", "--password-stdin"]), &ready, true, true, "/h/jar").unwrap() {
        LoginAction::Preview { report } => assert!(report.contains("\"ready_for_live\":true")),
        LoginAction::Live { .. } => panic!("no --live"),
    }
}

#[test]
fn live_login_needs_endpoint_email_and_stdin() {
    let err = |items: &[&str], c: &Config| match cmd_auth_login(&strings(items), c, true, true, "/h/jar") {
        Err(e) => e,
        Ok(_) => panic!("expected an error"),
    };
    assert_eq!(
        err(&["auth", "login", "--live"], &config("")),
        "live login requires --endpoint or DOMAINESIA_LOGIN_ENDPOINT"
    );
    assert_eq!(
        err(&["auth", "login", "--live", "--endpoint", "https://e"], &config("")),
        "live login requires --email"
    );
    assert_eq!(
        err(&["auth", "login", "--live", "--endpoint", "https://e", "--email", "a"], &config("")),
        "live login requires --password-stdin so the password is not stored in shell history"
    );
    let c = config("DOMAINESIA_CSRF_HEADER=H\nDOMAINESIA_CSRF_TOKEN=T\n");
    match cmd_auth_login(
        &strings(&["auth", "login", "--live", "--endpoint", "https://e", "--email", "a", "--password-stdin"]),
        &c,
        true,
        true,
        "/h/jar",
    )
    .unwrap()
    {
        LoginAction::Live { endpoint, email, cookie_jar, csrf } => {
            assert_eq!(endpoint, "https://e");
            assert_eq!(email, "a");
            assert_eq!(cookie_jar, "/h/jar");
            assert_eq!(csrf, Some("H: T".to_string()));
        }
        LoginAction::Preview { .. } => panic!("expected a live login"),
    }
}

#[test]
fn login_form_payload() {
    let args = strings(&["auth", "login"]);
    assert_eq!(
        login_payload(&args, "a@b.c", "p w+\r\n"),
        Ok("email=a%40b.c&password=p+w%2B".to_string())
    );
    assert_eq!(
        login_payload(&args, "a", "\r\n"),
        Err("password from stdin was empty".to_string())
    );
    let fields = strings(&["auth", "login", "--email-field", "user[email]", "--password-field", "pw"]);
    assert_eq!(
        login_payload(&fields, "x", "y"),
        Ok("user%5Bemail%5D=x&pw=y".to_string())
    );
}

#[test]
fn login_report_shows_size_not_content() {
    assert_eq!(
        login_report("/j", "<html>secret</html>"),
        "{\"mode\":\"live\",\"cookie_jar\":\"/j\",\"response_bytes\":19}"
    );
}

#[test]
fn settings_with_defaults() {
    let c = config("K=v\n");
    assert_eq!(get_or(&c, "K", "d"), "v");
    assert_eq!(get_or(&c, "L", "d"), "d");
    assert_eq!(value_or(&strings(&["--port", "1"]), "--port", "9"), "1");
    assert_eq!(value_or(&strings(&["--port"]), "--port", "9"), "9");
}

#[test]
fn browser_login_needs_node() {
    match cmd_auth_browser_login(&strings(&["auth", "browser-login"]), &config(""), false, "/h/jar", "/h/profile") {
        Err(e) => assert_eq!(e, "auth browser-login requires node because it uses Chrome DevTools Protocol"),
        Ok(_) => panic!("node is needed"),
    }
}

#[test]
fn import_cookies_needs_a_readable_source() {
    let c = config("");
    match cmd_auth_import_cookies(&strings(&["auth", "import-cookies", "--from", "missing.txt"]), &c, false, "/h/jar") {
        Err(e) => assert_eq!(e, "source cookie file is not readable"),
        Ok(_) => panic!("the source must be readable"),
    }
    let both = cmd_auth_import_cookies(
        &strings(&["auth", "import-cookies", "--from-stdin", "--from", "a.txt"]),
        &c,
        true,
        "/h/jar",
    )
    .unwrap();
    assert_eq!(both.source, Some("a.txt".to_string()));
}

#[test]
fn live_login_needs_curl() {
    let args = strings(&["auth", "login", "--live", "--endpoint", "https://e", "--email", "a", "--password-stdin"]);
    match cmd_auth_login(&args, &config(""), true, false, "/h/jar") {
        Err(e) => assert_eq!(e, "curl is required for live login"),
        Ok(_) => panic!("curl is needed"),
    }
}
