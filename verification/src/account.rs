//! The decisions and reports of the local setup and authentication
//! commands: `doctor`, `init` and `auth ...`.
use vstd::prelude::*;
use crate::cli::{base_url, flag_value, has_flag, value_after, Config};
use crate::dns::{csrf_header, csrf_header_spec, setting};
use crate::escape::{json_escape, json_escape_spec, url_encode, url_encode_spec};
use crate::model::{bool_text, push_bool};
use crate::number::{decimal, push_decimal};
use crate::pages::byte_len;
use crate::text::{
    copy_range, join_strings, join_with, string_of, texts, to_chars, trim, trim_bounds,
};

verus! {

/// A setting, or `default` where it is not set.
pub open spec fn setting_or(m: Map<Seq<char>, Seq<char>>, key: Seq<char>, default: Seq<char>) -> Seq<
    char,
> {
    if m.contains_key(key) {
        m[key]
    } else {
        default
    }
}

/// A setting of `config`, or `default` where it is not set.
pub fn get_or<'a>(config: &'a Config, key: &str, default: &'a str) -> (res: &'a str)
    ensures
        res@ == setting_or(config@, key@, default@),
{
    match config.get(key) {
        Some(v) => v,
        None => default,
    }
}

/// The report of `doctor`: the version, where the configuration lives and
/// whether it exists, the base URL and default domain, which settings are
/// present (never their values) and whether `curl` is available.
pub open spec fn doctor_spec(
    m: Map<Seq<char>, Seq<char>>,
    path: Seq<char>,
    version: Seq<char>,
    config_exists: bool,
    cookie_jar_readable: bool,
    curl_available: bool,
) -> Seq<char> {
    "{\"version\":\""@ + json_escape_spec(version) + "\",\"config_path\":\""@ + json_escape_spec(path)
        + "\",\"config_exists\":"@ + bool_text(config_exists) + ",\"base_url\":\""@
        + json_escape_spec(setting_or(m, "DOMAINESIA_BASE_URL"@, base_url()))
        + "\",\"default_domain\":\""@ + json_escape_spec(
        setting_or(m, "DOMAINESIA_DEFAULT_DOMAIN"@, Seq::empty()),
    ) + "\",\"cookie_jar_configured\":"@ + bool_text(m.contains_key("DOMAINESIA_COOKIE_JAR"@))
        + ",\"cookie_jar_readable\":"@ + bool_text(cookie_jar_readable)
        + ",\"login_endpoint_configured\":"@ + bool_text(m.contains_key("DOMAINESIA_LOGIN_ENDPOINT"@))
        + ",\"dns_add_endpoint_configured\":"@ + bool_text(
        m.contains_key("DOMAINESIA_DNS_ADD_ENDPOINT"@),
    ) + ",\"csrf_token_configured\":"@ + bool_text(m.contains_key("DOMAINESIA_CSRF_TOKEN"@))
        + ",\"curl_available\":"@ + bool_text(curl_available) + "}"@
}

/// The report of `doctor` (see `doctor_spec`); the facts about the machine
/// are the arguments.
pub fn cmd_doctor(
    config: &Config,
    version: &str,
    config_exists: bool,
    cookie_jar_readable: bool,
    curl_available: bool,
) -> (res: String)
    ensures
        res@ == doctor_spec(
            config@,
            config.path@,
            version@,
            config_exists,
            cookie_jar_readable,
            curl_available,
        ),
{
    proof {
        reveal_strlit("");
    }
    let mut out = String::from_str("{\"version\":\"");
    out.append(json_escape(version).as_str());
    out.append("\",\"config_path\":\"");
    out.append(json_escape(config.path.as_str()).as_str());
    out.append("\",\"config_exists\":");
    push_bool(&mut out, config_exists);
    out.append(",\"base_url\":\"");
    out.append(json_escape(get_or(config, "DOMAINESIA_BASE_URL", "https://my.domainesia.com")).as_str());
    out.append("\",\"default_domain\":\"");
    out.append(json_escape(get_or(config, "DOMAINESIA_DEFAULT_DOMAIN", "")).as_str());
    out.append("\",\"cookie_jar_configured\":");
    push_bool(&mut out, config.get("DOMAINESIA_COOKIE_JAR").is_some());
    out.append(",\"cookie_jar_readable\":");
    push_bool(&mut out, cookie_jar_readable);
    out.append(",\"login_endpoint_configured\":");
    push_bool(&mut out, config.get("DOMAINESIA_LOGIN_ENDPOINT").is_some());
    out.append(",\"dns_add_endpoint_configured\":");
    push_bool(&mut out, config.get("DOMAINESIA_DNS_ADD_ENDPOINT").is_some());
    out.append(",\"csrf_token_configured\":");
    push_bool(&mut out, config.get("DOMAINESIA_CSRF_TOKEN").is_some());
    out.append(",\"curl_available\":");
    push_bool(&mut out, curl_available);
    out.append("}");
    out
}

/// What `init` writes: the configuration file and the report.
pub struct InitPlan {
    pub content: String,
    pub report: String,
}

/// What `init` writes for the arguments `args`, with the configuration at
/// `config_path` and the cookie jar at `cookie_jar`: `--domain` is needed,
/// `--base-url` defaults to the MyDomaiNesia URL.
pub open spec fn init_spec(args: Seq<Seq<char>>, config_path: Seq<char>, cookie_jar: Seq<char>) -> Result<
    (Seq<char>, Seq<char>),
    Seq<char>,
> {
    match flag_value(args, "--domain"@) {
        None => Err("missing --domain, for example: --domain example.my.id"@),
        Some(domain) => {
            let base = match flag_value(args, "--base-url"@) {
                Some(b) => b,
                None => base_url(),
            };
            Ok(
                (
                    "DOMAINESIA_BASE_URL="@ + base + "\nDOMAINESIA_DEFAULT_DOMAIN="@ + domain
                        + "\nDOMAINESIA_COOKIE_JAR="@ + cookie_jar + "\n"@,
                    "{\"config_path\":\""@ + json_escape_spec(config_path)
                        + "\",\"default_domain\":\""@ + json_escape_spec(domain)
                        + "\",\"base_url\":\""@ + json_escape_spec(base) + "\"}"@,
                ),
            )
        },
    }
}

/// What `init` writes (see `init_spec`).
pub fn cmd_init(args: &[String], config_path: &str, cookie_jar: &str) -> (r: Result<InitPlan, String>)
    ensures
        match init_spec(texts(args@), config_path@, cookie_jar@) {
            Ok((c, rep)) => r matches Ok(p) && p.content@ == c && p.report@ == rep,
            Err(e) => r matches Err(m) && m@ == e,
        },
{
    let domain = match value_after(args, "--domain") {
        Some(d) => d,
        None => {
            return Err(String::from_str("missing --domain, for example: --domain example.my.id"));
        },
    };
    let base = match value_after(args, "--base-url") {
        Some(b) => b,
        None => "https://my.domainesia.com",
    };
    let mut content = String::from_str("DOMAINESIA_BASE_URL=");
    content.append(base);
    content.append("\nDOMAINESIA_DEFAULT_DOMAIN=");
    content.append(domain);
    content.append("\nDOMAINESIA_COOKIE_JAR=");
    content.append(cookie_jar);
    content.append("\n");
    let mut report = String::from_str("{\"config_path\":\"");
    report.append(json_escape(config_path).as_str());
    report.append("\",\"default_domain\":\"");
    report.append(json_escape(domain).as_str());
    report.append("\",\"base_url\":\"");
    report.append(json_escape(base).as_str());
    report.append("\"}");
    Ok(InitPlan { content, report })
}

/// The report of `auth status`: the base URL, which auth settings are
/// present, and whether the cookie jar can be read and how large it is.
pub open spec fn auth_status_spec(
    m: Map<Seq<char>, Seq<char>>,
    cookie_jar_readable: bool,
    cookie_jar_bytes: u64,
) -> Seq<char> {
    "{\"base_url\":\""@ + json_escape_spec(setting_or(m, "DOMAINESIA_BASE_URL"@, base_url()))
        + "\",\"cookie_jar_configured\":"@ + bool_text(m.contains_key("DOMAINESIA_COOKIE_JAR"@))
        + ",\"cookie_jar_readable\":"@ + bool_text(cookie_jar_readable) + ",\"cookie_jar_bytes\":"@
        + decimal(cookie_jar_bytes as nat) + ",\"login_endpoint_configured\":"@ + bool_text(
        m.contains_key("DOMAINESIA_LOGIN_ENDPOINT"@),
    ) + ",\"csrf_token_configured\":"@ + bool_text(m.contains_key("DOMAINESIA_CSRF_TOKEN"@)) + "}"@
}

/// The report of `auth status` (see `auth_status_spec`).
pub fn cmd_auth_status(config: &Config, cookie_jar_readable: bool, cookie_jar_bytes: u64) -> (res:
    String)
    ensures
        res@ == auth_status_spec(config@, cookie_jar_readable, cookie_jar_bytes),
{
    let mut out = String::from_str("{\"base_url\":\"");
    out.append(json_escape(get_or(config, "DOMAINESIA_BASE_URL", "https://my.domainesia.com")).as_str());
    out.append("\",\"cookie_jar_configured\":");
    push_bool(&mut out, config.get("DOMAINESIA_COOKIE_JAR").is_some());
    out.append(",\"cookie_jar_readable\":");
    push_bool(&mut out, cookie_jar_readable);
    out.append(",\"cookie_jar_bytes\":");
    push_decimal(&mut out, cookie_jar_bytes);
    out.append(",\"login_endpoint_configured\":");
    push_bool(&mut out, config.get("DOMAINESIA_LOGIN_ENDPOINT").is_some());
    out.append(",\"csrf_token_configured\":");
    push_bool(&mut out, config.get("DOMAINESIA_CSRF_TOKEN").is_some());
    out.append("}");
    out
}

/// The login page: `--url`, else the configured base URL, else the
/// MyDomaiNesia URL.
pub open spec fn login_url_spec(args: Seq<Seq<char>>, m: Map<Seq<char>, Seq<char>>) -> Seq<char> {
    match flag_value(args, "--url"@) {
        Some(u) => u,
        None => setting_or(m, "DOMAINESIA_BASE_URL"@, base_url()),
    }
}

/// The login page of `auth open-login` and `auth browser-login` (see
/// `login_url_spec`).
pub fn login_url(args: &[String], config: &Config) -> (res: String)
    ensures
        res@ == login_url_spec(texts(args@), config@),
{
    match value_after(args, "--url") {
        Some(u) => String::from_str(u),
        None => String::from_str(get_or(config, "DOMAINESIA_BASE_URL", "https://my.domainesia.com")),
    }
}

/// What `auth open-login` does: open `url` in a browser unless `--no-open`
/// is given.
pub struct OpenLogin {
    pub url: String,
    pub open: bool,
}

/// What `auth open-login` does (see `OpenLogin`).
pub fn cmd_auth_open_login(args: &[String], config: &Config) -> (res: OpenLogin)
    ensures
        res.url@ == login_url_spec(texts(args@), config@),
        res.open == !texts(args@).contains("--no-open"@),
{
    OpenLogin { url: login_url(args, config), open: !has_flag(args, "--no-open") }
}

/// The report of `auth open-login`: the login page, whether it was opened,
/// and what to do next.
pub open spec fn open_login_report_spec(url: Seq<char>, opened: bool) -> Seq<char> {
    "{\"login_url\":\""@ + json_escape_spec(url) + "\",\"opened\":"@ + bool_text(opened)
        + ",\"next\":\"Log in manually, then export/copy cookies to the configured cookie jar or use auth import-cookies.\"}"@
}

/// The report of `auth open-login` (see `open_login_report_spec`).
pub fn open_login_report(url: &str, opened: bool) -> (res: String)
    ensures
        res@ == open_login_report_spec(url@, opened),
{
    let mut out = String::from_str("{\"login_url\":\"");
    out.append(json_escape(url).as_str());
    out.append("\",\"opened\":");
    push_bool(&mut out, opened);
    out.append(
        ",\"next\":\"Log in manually, then export/copy cookies to the configured cookie jar or use auth import-cookies.\"}",
    );
    out
}

/// A flag's value, or `default`.
pub open spec fn flag_or(args: Seq<Seq<char>>, flag: Seq<char>, default: Seq<char>) -> Seq<char> {
    match flag_value(args, flag) {
        Some(v) => v,
        None => default,
    }
}

/// A flag's value, or `default`.
pub fn value_or(args: &[String], flag: &str, default: &str) -> (res: String)
    ensures
        res@ == flag_or(texts(args@), flag@, default@),
{
    match value_after(args, flag) {
        Some(v) => String::from_str(v),
        None => String::from_str(default),
    }
}

/// The cookie jar: `--cookie-jar` style flag `flag`, else the configured
/// cookie jar, else `default`.
pub open spec fn cookie_jar_spec(
    args: Seq<Seq<char>>,
    flag: Seq<char>,
    m: Map<Seq<char>, Seq<char>>,
    default: Seq<char>,
) -> Seq<char> {
    match flag_value(args, flag) {
        Some(v) => v,
        None => setting_or(m, "DOMAINESIA_COOKIE_JAR"@, default),
    }
}

fn cookie_jar_from(args: &[String], flag: &str, config: &Config, default: &str) -> (res: String)
    ensures
        res@ == cookie_jar_spec(texts(args@), flag@, config@, default@),
{
    match value_after(args, flag) {
        Some(v) => String::from_str(v),
        None => String::from_str(get_or(config, "DOMAINESIA_COOKIE_JAR", default)),
    }
}

/// What `auth browser-login` hands the browser helper.
pub struct BrowserLogin {
    pub login_url: String,
    pub timeout_seconds: String,
    pub port: String,
    pub wait_url_part: String,
    pub cookie_jar: String,
    pub profile_dir: String,
}

/// What `auth browser-login` hands the browser helper: the login page, the
/// timeout (180 s), the debugging port (9229), the URL part that shows a
/// finished login (`clientarea.php`), the cookie jar and the browser
/// profile, each from its flag where given. The helper runs on Node.js:
/// where `node_available` is false (no `node` on the search path) the
/// command fails before anything is written or started.
pub fn cmd_auth_browser_login(
    args: &[String],
    config: &Config,
    node_available: bool,
    default_cookie_jar: &str,
    default_profile_dir: &str,
) -> (r: Result<BrowserLogin, String>)
    ensures
        !node_available ==> (r matches Err(e) && e@
            == "auth browser-login requires node because it uses Chrome DevTools Protocol"@),
        node_available ==> (r matches Ok(res) && {
            &&& res.login_url@ == login_url_spec(texts(args@), config@)
            &&& res.timeout_seconds@ == flag_or(texts(args@), "--timeout-seconds"@, "180"@)
            &&& res.port@ == flag_or(texts(args@), "--port"@, "9229"@)
            &&& res.wait_url_part@ == flag_or(texts(args@), "--wait-url-part"@, "clientarea.php"@)
            &&& res.cookie_jar@ == cookie_jar_spec(
                texts(args@),
                "--cookie-jar"@,
                config@,
                default_cookie_jar@,
            )
            &&& res.profile_dir@ == flag_or(texts(args@), "--profile-dir"@, default_profile_dir@)
        }),
{
    if !node_available {
        return Err(
            String::from_str(
                "auth browser-login requires node because it uses Chrome DevTools Protocol",
            ),
        );
    }
    Ok(
        BrowserLogin {
            login_url: login_url(args, config),
            timeout_seconds: value_or(args, "--timeout-seconds", "180"),
            port: value_or(args, "--port", "9229"),
            wait_url_part: value_or(args, "--wait-url-part", "clientarea.php"),
            cookie_jar: cookie_jar_from(args, "--cookie-jar", config, default_cookie_jar),
            profile_dir: value_or(args, "--profile-dir", default_profile_dir),
        },
    )
}

/// The report of `auth browser-login`: the cookie jar, the helper's own
/// JSON answer (trimmed) and a note.
pub open spec fn browser_login_report_spec(cookie_jar: Seq<char>, helper_response: Seq<char>) -> Seq<
    char,
> {
    "{\"cookie_jar\":\""@ + json_escape_spec(cookie_jar) + "\",\"helper_response\":"@ + trim(
        helper_response,
    ) + ",\"note\":\"Cookie jar captured from dedicated Chrome profile. Run auth status next.\"}"@
}

/// The report of `auth browser-login` (see `browser_login_report_spec`).
pub fn browser_login_report(cookie_jar: &str, helper_response: &str) -> (res: String)
    ensures
        res@ == browser_login_report_spec(cookie_jar@, helper_response@),
{
    let h = to_chars(helper_response);
    let (a, b) = trim_bounds(h.as_slice());
    let trimmed = copy_range(h.as_slice(), a, b);
    let mut out = String::from_str("{\"cookie_jar\":\"");
    out.append(json_escape(cookie_jar).as_str());
    out.append("\",\"helper_response\":");
    out.append(string_of(trimmed.as_slice()).as_str());
    out.append(",\"note\":\"Cookie jar captured from dedicated Chrome profile. Run auth status next.\"}");
    out
}

/// Where `auth import-cookies` copies from and to: `source` is the cookie
/// file, or `None` for standard input.
pub struct ImportCookies {
    pub source: Option<String>,
    pub target: String,
}

/// Where `auth import-cookies` copies from and to. The source is the file
/// of `--from`, which must be a readable file (`source_readable` says
/// whether the file that `--from` names is one); without `--from`,
/// `--from-stdin` takes the cookies from standard input, and one of the two
/// is needed. The target is `--to`, else the configured or default cookie
/// jar.
pub fn cmd_auth_import_cookies(
    args: &[String],
    config: &Config,
    source_readable: bool,
    default_cookie_jar: &str,
) -> (r: Result<ImportCookies, String>)
    ensures
        match flag_value(texts(args@), "--from"@) {
            Some(src) => if source_readable {
                r matches Ok(p) && p.source matches Some(s) && s@ == src && p.target@
                    == cookie_jar_spec(texts(args@), "--to"@, config@, default_cookie_jar@)
            } else {
                r matches Err(e) && e@ == "source cookie file is not readable"@
            },
            None => if texts(args@).contains("--from-stdin"@) {
                r matches Ok(p) && p.source is None && p.target@ == cookie_jar_spec(
                    texts(args@),
                    "--to"@,
                    config@,
                    default_cookie_jar@,
                )
            } else {
                r matches Err(e) && e@ == "missing --from <cookies.txt>"@
            },
        },
{
    let source = match value_after(args, "--from") {
        Some(s) => {
            if !source_readable {
                return Err(String::from_str("source cookie file is not readable"));
            }
            Some(String::from_str(s))
        },
        None => {
            if !has_flag(args, "--from-stdin") {
                return Err(String::from_str("missing --from <cookies.txt>"));
            }
            None
        },
    };
    Ok(ImportCookies { source, target: cookie_jar_from(args, "--to", config, default_cookie_jar) })
}

/// The report of `auth import-cookies`.
pub open spec fn import_report_spec(target: Seq<char>) -> Seq<char> {
    "{\"cookie_jar\":\""@ + json_escape_spec(target) + "\",\"imported\":true}"@
}

/// The report of `auth import-cookies` for the cookie jar `target`.
pub fn import_cookies_report(target: &str) -> (res: String)
    ensures
        res@ == import_report_spec(target@),
{
    let mut out = String::from_str("{\"cookie_jar\":\"");
    out.append(json_escape(target).as_str());
    out.append("\",\"imported\":true}");
    out
}

/// What `auth logout` removes: the cookie jar and, unless only the cookie
/// jar is to go, the dedicated browser profile.
pub struct Logout {
    pub cookie_jar: String,
    pub profile_dir: Option<String>,
}

/// What `auth logout` removes: the configured cookie jar (else
/// `default_cookie_jar`) and, unless `--cookie-only` is given, the browser
/// profile of `--profile-dir` (else `default_profile_dir`).
pub fn cmd_auth_logout(
    args: &[String],
    config: &Config,
    default_cookie_jar: &str,
    default_profile_dir: &str,
) -> (res: Logout)
    ensures
        res.cookie_jar@ == setting_or(config@, "DOMAINESIA_COOKIE_JAR"@, default_cookie_jar@),
        texts(args@).contains("--cookie-only"@) ==> res.profile_dir is None,
        !texts(args@).contains("--cookie-only"@) ==> (res.profile_dir matches Some(p) && p@
            == flag_or(texts(args@), "--profile-dir"@, default_profile_dir@)),
{
    let cookie_jar = String::from_str(get_or(config, "DOMAINESIA_COOKIE_JAR", default_cookie_jar));
    let profile_dir = if has_flag(args, "--cookie-only") {
        None
    } else {
        Some(value_or(args, "--profile-dir", default_profile_dir))
    };
    Logout { cookie_jar, profile_dir }
}

/// The report of `auth logout`: the cookie jar and whether it was removed,
/// and the browser profile (`null` where it was kept) and whether it was
/// removed.
pub open spec fn logout_report_spec(
    cookie_jar: Seq<char>,
    cookie_jar_removed: bool,
    profile_dir: Option<Seq<char>>,
    profile_removed: bool,
) -> Seq<char> {
    "{\"cookie_jar\":\""@ + json_escape_spec(cookie_jar) + "\",\"cookie_jar_removed\":"@ + bool_text(
        cookie_jar_removed,
    ) + ",\"profile_dir\":"@ + match profile_dir {
        Some(p) => "\""@ + json_escape_spec(p) + "\""@,
        None => "null"@,
    } + ",\"profile_removed\":"@ + bool_text(profile_removed) + "}"@
}

/// The report of `auth logout` (see `logout_report_spec`).
pub fn logout_report(
    cookie_jar: &str,
    cookie_jar_removed: bool,
    profile_dir: Option<&str>,
    profile_removed: bool,
) -> (res: String)
    ensures
        res@ == logout_report_spec(
            cookie_jar@,
            cookie_jar_removed,
            match profile_dir {
                Some(p) => Some(p@),
                None => None,
            },
            profile_removed,
        ),
{
    let mut out = String::from_str("{\"cookie_jar\":\"");
    out.append(json_escape(cookie_jar).as_str());
    out.append("\",\"cookie_jar_removed\":");
    push_bool(&mut out, cookie_jar_removed);
    out.append(",\"profile_dir\":");
    match profile_dir {
        Some(p) => {
            out.append("\"");
            out.append(json_escape(p).as_str());
            out.append("\"");
        },
        None => out.append("null"),
    }
    out.append(",\"profile_removed\":");
    push_bool(&mut out, profile_removed);
    out.append("}");
    out
}

/// The flags of `auth configure` and the settings they set, in order.
pub open spec fn configure_flags() -> Seq<(Seq<char>, Seq<char>)> {
    seq![
        ("--login-endpoint"@, "DOMAINESIA_LOGIN_ENDPOINT"@),
        ("--dns-add-endpoint"@, "DOMAINESIA_DNS_ADD_ENDPOINT"@),
        ("--csrf-header"@, "DOMAINESIA_CSRF_HEADER"@),
        ("--csrf-token"@, "DOMAINESIA_CSRF_TOKEN"@),
        ("--cookie-jar"@, "DOMAINESIA_COOKIE_JAR"@),
    ]
}

/// The settings that `auth configure` writes for the first `n` flags: one
/// for each flag that is given, in order.
pub open spec fn configure_updates(args: Seq<Seq<char>>, n: int) -> Seq<(Seq<char>, Seq<char>)>
    decreases n,
{
    if n <= 0 {
        Seq::empty()
    } else {
        let prev = configure_updates(args, n - 1);
        let (flag, key) = configure_flags()[n - 1];
        match flag_value(args, flag) {
            Some(v) => prev.push((key, v)),
            None => prev,
        }
    }
}

/// The settings that `auth configure` writes: refused where no flag is
/// given.
pub open spec fn configure_spec(args: Seq<Seq<char>>) -> Result<Seq<(Seq<char>, Seq<char>)>, Seq<char>> {
    let u = configure_updates(args, 5);
    if u.len() == 0 {
        Err(
            "nothing to configure; pass --login-endpoint, --dns-add-endpoint, --csrf-header, --csrf-token, or --cookie-jar"@,
        )
    } else {
        Ok(u)
    }
}

fn push_update(
    updates: &mut Vec<(String, String)>,
    args: &[String],
    flag: &str,
    key: &str,
)
    ensures
        crate::cli::pair_texts(final(updates)@) == match flag_value(texts(args@), flag@) {
            Some(v) => crate::cli::pair_texts(old(updates)@).push((key@, v)),
            None => crate::cli::pair_texts(old(updates)@),
        },
{
    match value_after(args, flag) {
        Some(v) => {
            let ghost before = crate::cli::pair_texts(updates@);
            updates.push((String::from_str(key), String::from_str(v)));
            assert(crate::cli::pair_texts(updates@) =~= before.push((key@, v@)));
        },
        None => {},
    }
}

/// The settings that `auth configure` writes (see `configure_spec`).
pub fn cmd_auth_configure(args: &[String]) -> (r: Result<Vec<(String, String)>, String>)
    ensures
        match configure_spec(texts(args@)) {
            Ok(u) => r matches Ok(v) && crate::cli::pair_texts(v@) == u,
            Err(e) => r matches Err(m) && m@ == e,
        },
{
    let mut updates: Vec<(String, String)> = Vec::new();
    assert(crate::cli::pair_texts(updates@) =~= configure_updates(texts(args@), 0));
    push_update(&mut updates, args, "--login-endpoint", "DOMAINESIA_LOGIN_ENDPOINT");
    assert(configure_flags()[0] == ("--login-endpoint"@, "DOMAINESIA_LOGIN_ENDPOINT"@));
    assert(crate::cli::pair_texts(updates@) == configure_updates(texts(args@), 1));
    push_update(&mut updates, args, "--dns-add-endpoint", "DOMAINESIA_DNS_ADD_ENDPOINT");
    assert(configure_flags()[1] == ("--dns-add-endpoint"@, "DOMAINESIA_DNS_ADD_ENDPOINT"@));
    assert(crate::cli::pair_texts(updates@) == configure_updates(texts(args@), 2));
    push_update(&mut updates, args, "--csrf-header", "DOMAINESIA_CSRF_HEADER");
    assert(configure_flags()[2] == ("--csrf-header"@, "DOMAINESIA_CSRF_HEADER"@));
    assert(crate::cli::pair_texts(updates@) == configure_updates(texts(args@), 3));
    push_update(&mut updates, args, "--csrf-token", "DOMAINESIA_CSRF_TOKEN");
    assert(configure_flags()[3] == ("--csrf-token"@, "DOMAINESIA_CSRF_TOKEN"@));
    assert(crate::cli::pair_texts(updates@) == configure_updates(texts(args@), 4));
    push_update(&mut updates, args, "--cookie-jar", "DOMAINESIA_COOKIE_JAR");
    assert(configure_flags()[4] == ("--cookie-jar"@, "DOMAINESIA_COOKIE_JAR"@));
    assert(crate::cli::pair_texts(updates@) == configure_updates(texts(args@), 5));
    if updates.len() == 0 {
        return Err(
            String::from_str(
                "nothing to configure; pass --login-endpoint, --dns-add-endpoint, --csrf-header, --csrf-token, or --cookie-jar",
            ),
        );
    }
    Ok(updates)
}

/// The report of `auth configure`: the keys that were written.
pub open spec fn configure_report_spec(u: Seq<(Seq<char>, Seq<char>)>) -> Seq<char> {
    "{\"updated_keys\":["@ + join_with(
        u.map_values(|e: (Seq<char>, Seq<char>)| "\""@ + json_escape_spec(e.0) + "\""@),
        ","@,
    ) + "]}"@
}

/// The report of `auth configure` for the written `updates`.
pub fn configure_report(updates: &Vec<(String, String)>) -> (res: String)
    ensures
        res@ == configure_report_spec(crate::cli::pair_texts(updates@)),
{
    let ghost u = crate::cli::pair_texts(updates@);
    let mut keys: Vec<String> = Vec::new();
    let mut i: usize = 0;
    while i < updates.len()
        invariant
            i <= updates@.len(),
            u == crate::cli::pair_texts(updates@),
            texts(keys@) == u.take(i as int).map_values(
                |e: (Seq<char>, Seq<char>)| "\""@ + json_escape_spec(e.0) + "\""@,
            ),
        decreases updates@.len() - i,
    {
        let mut q = String::from_str("\"");
        q.append(json_escape(updates[i].0.as_str()).as_str());
        q.append("\"");
        let ghost before = texts(keys@);
        let ghost qv = q@;
        keys.push(q);
        assert(texts(keys@) =~= before.push(qv));
        assert(u.take(i + 1).map_values(|e: (Seq<char>, Seq<char>)| "\""@ + json_escape_spec(e.0) + "\""@)
            =~= u.take(i as int).map_values(
            |e: (Seq<char>, Seq<char>)| "\""@ + json_escape_spec(e.0) + "\""@,
        ).push("\""@ + json_escape_spec(u[i as int].0) + "\""@));
        i = i + 1;
    }
    assert(u.take(updates@.len() as int) =~= u);
    let mut out = String::from_str("{\"updated_keys\":[");
    out.append(join_strings(&keys, ",").as_str());
    out.append("]}");
    out
}

/// What `auth login` does, as texts.
pub enum LoginPlan {
    Preview(Seq<char>),
    Live { endpoint: Seq<char>, email: Seq<char>, cookie_jar: Seq<char>, csrf: Option<Seq<char>> },
}

/// What `auth login` does: it is experimental and must be enabled. Without
/// `--live` it prints a dry-run report of what a live login would need;
/// with it, it needs an endpoint (`--endpoint` or configured), `--email`,
/// `--password-stdin` and `curl` (`curl_available`), and logs in with the
/// cookie jar of the settings (else `default_jar`) and the CSRF header
/// where one is configured.
pub open spec fn login_spec(
    args: Seq<Seq<char>>,
    m: Map<Seq<char>, Seq<char>>,
    experimental: bool,
    curl_available: bool,
    default_jar: Seq<char>,
) -> Result<LoginPlan, Seq<char>> {
    if !experimental {
        Err("auth login is experimental; set DOMAINESIA_ENABLE_EXPERIMENTAL_ENDPOINTS=1 to enable it"@)
    } else {
        let live = args.contains("--live"@);
        let endpoint = match flag_value(args, "--endpoint"@) {
            Some(e) => Some(e),
            None => setting(m, "DOMAINESIA_LOGIN_ENDPOINT"@),
        };
        let email = flag_value(args, "--email"@);
        let stdin = args.contains("--password-stdin"@);
        if !live {
            Ok(
                LoginPlan::Preview(
                    "{\"mode\":\"dry-run\",\"ready_for_live\":"@ + bool_text(
                        endpoint is Some && email is Some && stdin,
                    ) + ",\"endpoint_configured\":"@ + bool_text(endpoint is Some)
                        + ",\"email_provided\":"@ + bool_text(email is Some)
                        + ",\"password_source\":\""@ + (if stdin {
                        "stdin"@
                    } else {
                        "missing"@
                    }) + "\"}"@,
                ),
            )
        } else {
            match endpoint {
                None => Err("live login requires --endpoint or DOMAINESIA_LOGIN_ENDPOINT"@),
                Some(endpoint) => match email {
                    None => Err("live login requires --email"@),
                    Some(email) => if !stdin {
                        Err(
                            "live login requires --password-stdin so the password is not stored in shell history"@,
                        )
                    } else if !curl_available {
                        Err("curl is required for live login"@)
                    } else {
                        Ok(
                            LoginPlan::Live {
                                endpoint,
                                email,
                                cookie_jar: setting_or(m, "DOMAINESIA_COOKIE_JAR"@, default_jar),
                                csrf: csrf_header_spec(m),
                            },
                        )
                    },
                },
            }
        }
    }
}

/// What `auth login` does (see `login_spec`).
pub enum LoginAction {
    /// Print this dry-run report.
    Preview { report: String },
    /// Read the password from standard input and post the login form to
    /// `endpoint`, keeping the cookies in `cookie_jar`.
    Live { endpoint: String, email: String, cookie_jar: String, csrf: Option<String> },
}

/// The plan that a login action carries out.
pub open spec fn login_plan(a: LoginAction) -> LoginPlan {
    match a {
        LoginAction::Preview { report } => LoginPlan::Preview(report@),
        LoginAction::Live { endpoint, email, cookie_jar, csrf } => LoginPlan::Live {
            endpoint: endpoint@,
            email: email@,
            cookie_jar: cookie_jar@,
            csrf: crate::dns::opt_string(csrf),
        },
    }
}

/// What `auth login` does (see `login_spec`); `experimental` says whether
/// experimental endpoints are enabled and `curl_available` whether `curl`
/// is on the search path.
pub fn cmd_auth_login(
    args: &[String],
    config: &Config,
    experimental: bool,
    curl_available: bool,
    default_cookie_jar: &str,
) -> (r: Result<LoginAction, String>)
    ensures
        match login_spec(texts(args@), config@, experimental, curl_available, default_cookie_jar@) {
            Ok(p) => r matches Ok(a) && login_plan(a) == p,
            Err(e) => r matches Err(m) && m@ == e,
        },
{
    if !experimental {
        return Err(
            String::from_str(
                "auth login is experimental; set DOMAINESIA_ENABLE_EXPERIMENTAL_ENDPOINTS=1 to enable it",
            ),
        );
    }
    let live = has_flag(args, "--live");
    let endpoint = match value_after(args, "--endpoint") {
        Some(e) => Some(e),
        None => config.get("DOMAINESIA_LOGIN_ENDPOINT"),
    };
    let email = value_after(args, "--email");
    let stdin = has_flag(args, "--password-stdin");
    if !live {
        let mut report = String::from_str("{\"mode\":\"dry-run\",\"ready_for_live\":");
        push_bool(&mut report, endpoint.is_some() && email.is_some() && stdin);
        report.append(",\"endpoint_configured\":");
        push_bool(&mut report, endpoint.is_some());
        report.append(",\"email_provided\":");
        push_bool(&mut report, email.is_some());
        report.append(",\"password_source\":\"");
        if stdin {
            report.append("stdin");
        } else {
            report.append("missing");
        }
        report.append("\"}");
        return Ok(LoginAction::Preview { report });
    }
    let endpoint = match endpoint {
        Some(e) => e,
        None => {
            return Err(String::from_str("live login requires --endpoint or DOMAINESIA_LOGIN_ENDPOINT"));
        },
    };
    let email = match email {
        Some(e) => e,
        None => {
            return Err(String::from_str("live login requires --email"));
        },
    };
    if !stdin {
        return Err(
            String::from_str(
                "live login requires --password-stdin so the password is not stored in shell history",
            ),
        );
    }
    if !curl_available {
        return Err(String::from_str("curl is required for live login"));
    }
    Ok(
        LoginAction::Live {
            endpoint: String::from_str(endpoint),
            email: String::from_str(email),
            cookie_jar: String::from_str(get_or(config, "DOMAINESIA_COOKIE_JAR", default_cookie_jar)),
            csrf: csrf_header(config),
        },
    )
}

/// `s` without its trailing carriage returns and line feeds.
pub open spec fn trim_line_end(s: Seq<char>) -> Seq<char>
    decreases s.len(),
{
    if s.len() > 0 && (s.last() == '\r' || s.last() == '\n') {
        trim_line_end(s.drop_last())
    } else {
        s
    }
}

/// The login form for `email` and the password line `password_line` (read
/// from standard input): the password is the line without its line end
/// and must not be empty; the field names default to `email` and
/// `password`.
pub open spec fn login_payload_spec(args: Seq<Seq<char>>, email: Seq<char>, password_line: Seq<char>) -> Result<
    Seq<char>,
    Seq<char>,
> {
    let password = trim_line_end(password_line);
    if password.len() == 0 {
        Err("password from stdin was empty"@)
    } else {
        Ok(
            url_encode_spec(vstd::utf8::encode_utf8(flag_or(args, "--email-field"@, "email"@))) + "="@
                + url_encode_spec(vstd::utf8::encode_utf8(email)) + "&"@ + url_encode_spec(
                vstd::utf8::encode_utf8(flag_or(args, "--password-field"@, "password"@)),
            ) + "="@ + url_encode_spec(vstd::utf8::encode_utf8(password)),
        )
    }
}

/// The login form (see `login_payload_spec`).
pub fn login_payload(args: &[String], email: &str, password_line: &str) -> (r: Result<String, String>)
    ensures
        match r {
            Ok(p) => login_payload_spec(texts(args@), email@, password_line@) == Ok::<
                Seq<char>,
                Seq<char>,
            >(p@),
            Err(e) => login_payload_spec(texts(args@), email@, password_line@) == Err::<
                Seq<char>,
                Seq<char>,
            >(e@),
        },
{
    let line = to_chars(password_line);
    let mut n = line.len();
    assert(line@.take(n as int) =~= line@);
    while n > 0 && (line[n - 1] == '\r' || line[n - 1] == '\n')
        invariant
            n <= line@.len(),
            trim_line_end(line@) == trim_line_end(line@.take(n as int)),
        decreases n,
    {
        assert(line@.take(n as int).drop_last() =~= line@.take(n - 1));
        n = n - 1;
    }
    if n == 0 {
        return Err(String::from_str("password from stdin was empty"));
    }
    let password = string_of(copy_range(line.as_slice(), 0, n).as_slice());
    assert(line@.subrange(0, n as int) =~= line@.take(n as int));
    let email_field = value_or(args, "--email-field", "email");
    let password_field = value_or(args, "--password-field", "password");
    let mut out = url_encode(email_field.as_str());
    out.append("=");
    out.append(url_encode(email).as_str());
    out.append("&");
    out.append(url_encode(password_field.as_str()).as_str());
    out.append("=");
    out.append(url_encode(password.as_str()).as_str());
    Ok(out)
}

/// The report of a live login: the cookie jar and the size of the answer
/// in bytes; the answer itself, which may hold account data, is not shown.
pub open spec fn login_report_spec(cookie_jar: Seq<char>, response: Seq<char>) -> Seq<char> {
    "{\"mode\":\"live\",\"cookie_jar\":\""@ + json_escape_spec(cookie_jar) + "\",\"response_bytes\":"@
        + decimal(vstd::utf8::encode_utf8(response).len()) + "}"@
}

/// The report of a live login (see `login_report_spec`).
pub fn login_report(cookie_jar: &str, response: &str) -> (res: String)
    ensures
        res@ == login_report_spec(cookie_jar@, response@),
{
    let mut out = String::from_str("{\"mode\":\"live\",\"cookie_jar\":\"");
    out.append(json_escape(cookie_jar).as_str());
    out.append("\",\"response_bytes\":");
    push_decimal(&mut out, byte_len(response) as u64);
    out.append("}");
    out
}

/// The key and the presence of a setting agree in two sets of settings.
pub open spec fn same_presence(m1: Map<Seq<char>, Seq<char>>, m2: Map<Seq<char>, Seq<char>>, key: Seq<char>) -> bool {
    m1.contains_key(key) == m2.contains_key(key)
}

/// `doctor` and `auth status` never print the cookie jar's path, the login
/// or DNS endpoints or the CSRF token: two sets of settings that differ
/// only in those values give the same reports.
pub proof fn law_reports_hide_secrets(
    m1: Map<Seq<char>, Seq<char>>,
    m2: Map<Seq<char>, Seq<char>>,
    path: Seq<char>,
    version: Seq<char>,
    config_exists: bool,
    readable: bool,
    curl: bool,
    bytes: u64,
)
    requires
        same_presence(m1, m2, "DOMAINESIA_COOKIE_JAR"@),
        same_presence(m1, m2, "DOMAINESIA_LOGIN_ENDPOINT"@),
        same_presence(m1, m2, "DOMAINESIA_DNS_ADD_ENDPOINT"@),
        same_presence(m1, m2, "DOMAINESIA_CSRF_TOKEN"@),
        setting_or(m1, "DOMAINESIA_BASE_URL"@, base_url()) == setting_or(
            m2,
            "DOMAINESIA_BASE_URL"@,
            base_url(),
        ),
        setting_or(m1, "DOMAINESIA_DEFAULT_DOMAIN"@, Seq::empty()) == setting_or(
            m2,
            "DOMAINESIA_DEFAULT_DOMAIN"@,
            Seq::empty(),
        ),
    ensures
        doctor_spec(m1, path, version, config_exists, readable, curl) == doctor_spec(
            m2,
            path,
            version,
            config_exists,
            readable,
            curl,
        ),
        auth_status_spec(m1, readable, bytes) == auth_status_spec(m2, readable, bytes),
{
}

/// A live login happens only where experimental endpoints are enabled and
/// `--live`, `--email` and `--password-stdin` are all given; the password
/// never comes from the command line.
pub proof fn law_live_login_is_gated(
    args: Seq<Seq<char>>,
    m: Map<Seq<char>, Seq<char>>,
    experimental: bool,
    curl_available: bool,
    default_jar: Seq<char>,
)
    ensures
        (login_spec(args, m, experimental, curl_available, default_jar) matches Ok(
            LoginPlan::Live { .. },
        )) ==> {
            &&& experimental
            &&& args.contains("--live"@)
            &&& args.contains("--password-stdin"@)
            &&& flag_value(args, "--email"@) is Some
        },
{
}

proof fn lemma_configure_updates_has(args: Seq<Seq<char>>, n: int, j: int, v: Seq<char>)
    requires
        0 <= j < n <= 5,
        flag_value(args, configure_flags()[j].0) == Some(v),
    ensures
        configure_updates(args, n).contains((configure_flags()[j].1, v)),
    decreases n,
{
    let prev = configure_updates(args, n - 1);
    if j == n - 1 {
        assert(configure_updates(args, n) == prev.push((configure_flags()[j].1, v)));
        assert(configure_updates(args, n)[prev.len() as int] == (configure_flags()[j].1, v));
    } else {
        lemma_configure_updates_has(args, n - 1, j, v);
        let k = choose|k: int| 0 <= k < prev.len() && prev[k] == (configure_flags()[j].1, v);
        match flag_value(args, configure_flags()[n - 1].0) {
            Some(w) => {
                assert(configure_updates(args, n)[k] == prev[k]);
            },
            None => {},
        }
    }
}

/// The setting `e` comes from one of the first `n` configure flags: it is
/// that flag's setting with the flag's value.
pub open spec fn from_configure_flag(args: Seq<Seq<char>>, e: (Seq<char>, Seq<char>), n: int) -> bool {
    exists|j: int|
        0 <= j < n && flag_value(args, #[trigger] configure_flags()[j].0) == Some(e.1) && e.0
            == configure_flags()[j].1
}

proof fn lemma_configure_updates_keys(args: Seq<Seq<char>>, n: int)
    requires
        0 <= n <= 5,
    ensures
        forall|i: int|
            0 <= i < configure_updates(args, n).len() ==> from_configure_flag(
                args,
                #[trigger] configure_updates(args, n)[i],
                n,
            ),
    decreases n,
{
    if n > 0 {
        lemma_configure_updates_keys(args, n - 1);
        let prev = configure_updates(args, n - 1);
        assert forall|i: int| 0 <= i < configure_updates(args, n).len() implies from_configure_flag(
            args,
            #[trigger] configure_updates(args, n)[i],
            n,
        ) by {
            if i < prev.len() {
                assert(configure_updates(args, n)[i] == prev[i]);
                assert(from_configure_flag(args, prev[i], n - 1));
                let j = choose|j: int|
                    0 <= j < n - 1 && flag_value(args, #[trigger] configure_flags()[j].0) == Some(
                        prev[i].1,
                    ) && prev[i].0 == configure_flags()[j].1;
                assert(0 <= j < n);
            } else {
                let j = n - 1;
                assert(flag_value(args, configure_flags()[j].0) == Some(
                    configure_updates(args, n)[i].1,
                ));
            }
        }
    }
}

/// Where `flag` is given, `auth configure` succeeds and writes `key` with
/// the flag's value.
pub open spec fn configure_sets(args: Seq<Seq<char>>, flag: Seq<char>, key: Seq<char>) -> bool {
    flag_value(args, flag) matches Some(v) ==> (configure_spec(args) matches Ok(u) && u.contains(
        (key, v),
    ))
}

/// `auth configure` writes a setting for each of its five flags that is
/// given (`--login-endpoint`, `--dns-add-endpoint`, `--csrf-header`,
/// `--csrf-token`, `--cookie-jar`), with the flag's value, and no other
/// setting; it is refused exactly when none of them is given.
pub proof fn law_configure_sets_given_flags(args: Seq<Seq<char>>)
    ensures
        configure_sets(args, "--login-endpoint"@, "DOMAINESIA_LOGIN_ENDPOINT"@),
        configure_sets(args, "--dns-add-endpoint"@, "DOMAINESIA_DNS_ADD_ENDPOINT"@),
        configure_sets(args, "--csrf-header"@, "DOMAINESIA_CSRF_HEADER"@),
        configure_sets(args, "--csrf-token"@, "DOMAINESIA_CSRF_TOKEN"@),
        configure_sets(args, "--cookie-jar"@, "DOMAINESIA_COOKIE_JAR"@),
        configure_spec(args) matches Ok(u) ==> forall|i: int|
            0 <= i < u.len() ==> from_configure_flag(args, #[trigger] u[i], 5),
        configure_spec(args) is Err <==> (flag_value(args, "--login-endpoint"@) is None
            && flag_value(args, "--dns-add-endpoint"@) is None && flag_value(
            args,
            "--csrf-header"@,
        ) is None && flag_value(args, "--csrf-token"@) is None && flag_value(
            args,
            "--cookie-jar"@,
        ) is None),
{
    let fl = configure_flags();
    assert(fl[0] == ("--login-endpoint"@, "DOMAINESIA_LOGIN_ENDPOINT"@));
    assert(fl[1] == ("--dns-add-endpoint"@, "DOMAINESIA_DNS_ADD_ENDPOINT"@));
    assert(fl[2] == ("--csrf-header"@, "DOMAINESIA_CSRF_HEADER"@));
    assert(fl[3] == ("--csrf-token"@, "DOMAINESIA_CSRF_TOKEN"@));
    assert(fl[4] == ("--cookie-jar"@, "DOMAINESIA_COOKIE_JAR"@));
    assert(configure_sets(args, "--login-endpoint"@, "DOMAINESIA_LOGIN_ENDPOINT"@)) by {
        if flag_value(args, fl[0].0) is Some {
            lemma_configure_updates_has(args, 5, 0, flag_value(args, fl[0].0)->0);
        }
    }
    assert(configure_sets(args, "--dns-add-endpoint"@, "DOMAINESIA_DNS_ADD_ENDPOINT"@)) by {
        if flag_value(args, fl[1].0) is Some {
            lemma_configure_updates_has(args, 5, 1, flag_value(args, fl[1].0)->0);
        }
    }
    assert(configure_sets(args, "--csrf-header"@, "DOMAINESIA_CSRF_HEADER"@)) by {
        if flag_value(args, fl[2].0) is Some {
            lemma_configure_updates_has(args, 5, 2, flag_value(args, fl[2].0)->0);
        }
    }
    assert(configure_sets(args, "--csrf-token"@, "DOMAINESIA_CSRF_TOKEN"@)) by {
        if flag_value(args, fl[3].0) is Some {
            lemma_configure_updates_has(args, 5, 3, flag_value(args, fl[3].0)->0);
        }
    }
    assert(configure_sets(args, "--cookie-jar"@, "DOMAINESIA_COOKIE_JAR"@)) by {
        if flag_value(args, fl[4].0) is Some {
            lemma_configure_updates_has(args, 5, 4, flag_value(args, fl[4].0)->0);
        }
    }
    lemma_configure_updates_keys(args, 5);
    let u = configure_updates(args, 5);
    if u.len() == 0 {
        assert forall|j: int| 0 <= j < 5 implies flag_value(args, #[trigger] fl[j].0) is None by {
            if flag_value(args, fl[j].0) is Some {
                lemma_configure_updates_has(args, 5, j, flag_value(args, fl[j].0)->0);
            }
        }
        assert(flag_value(args, fl[0].0) is None);
        assert(flag_value(args, fl[1].0) is None);
        assert(flag_value(args, fl[2].0) is None);
        assert(flag_value(args, fl[3].0) is None);
        assert(flag_value(args, fl[4].0) is None);
    } else {
        let e = u[0];
        assert(from_configure_flag(args, e, 5));
        let j = choose|j: int|
            0 <= j < 5 && flag_value(args, #[trigger] fl[j].0) == Some(e.1) && e.0 == fl[j].1;
        assert(flag_value(args, fl[j].0) is Some);
    }
}

} // verus!
