//! The reports of the read-only commands: features, domains, invoices,
//! HAR endpoint candidates and raw pages.
use vstd::prelude::*;
use crate::cli::{at_host, flag_value, is_at_host, value_after, Config};
use crate::dns::setting;
use crate::escape::{json_escape, json_escape_spec};
use crate::html::{
    between, between_from, domain_views, domains_spec, endpoint_candidates_spec,
    extract_endpoint_candidates, extract_forms_json, forms_json_spec, invoices_json_spec,
    parse_domains, parse_invoices_json,
};
use crate::model::{bool_text, domain_json, domain_json_spec, push_bool, DomainInfo, DomainView};
use crate::number::{decimal, push_decimal};
use crate::text::{
    join_strings, join_with, str_eq, string_of_range, texts, to_chars,
};

verus! {

/// The report of `features list`: the known MyDomaiNesia surfaces with
/// their paths and whether the CLI reads or also writes them.
pub open spec fn features_list_spec() -> Seq<char> {
    "{\"features\":[{\"name\":\"dashboard\",\"path\":\"/clientarea.php\",\"access\":\"read\"},{\"name\":\"products\",\"path\":\"/dashboard/products\",\"access\":\"read\"},{\"name\":\"domains\",\"path\":\"/dashboard/domains\",\"access\":\"read\"},{\"name\":\"domain-details\",\"path\":\"/clientarea.php?action=domaindetails&id=<domain_id>\",\"access\":\"read\"},{\"name\":\"dns-management\",\"path\":\"/clientarea.php?action=domaindns&domainid=<domain_id>\",\"access\":\"read/write\"},{\"name\":\"nameservers\",\"path\":\"/clientarea.php?action=domaindetails&id=<domain_id>#tabNameservers\",\"access\":\"read/write\"},{\"name\":\"private-nameservers\",\"path\":\"/clientarea.php?action=domainregisterns&domainid=<domain_id>\",\"access\":\"read/write\"},{\"name\":\"dnssec\",\"path\":\"/index.php?m=rnadnssec&id=<domain_id>&domain=<domain>\",\"access\":\"read/write\"},{\"name\":\"domain-forwarding\",\"path\":\"/index.php?m=rnadomainforwarding&id=<domain_id>&domain=<domain>\",\"access\":\"read/write\"},{\"name\":\"domain-contacts\",\"path\":\"/clientarea.php?action=domaincontacts&domainid=<domain_id>\",\"access\":\"read/write\"},{\"name\":\"invoices\",\"path\":\"/dashboard/invoices\",\"access\":\"read\"},{\"name\":\"tickets\",\"path\":\"/tickets\",\"access\":\"read/write\"},{\"name\":\"account-details\",\"path\":\"/clientarea.php?action=details\",\"access\":\"read/write\"},{\"name\":\"user-management\",\"path\":\"/index.php?rp=/account/users\",\"access\":\"read/write\"},{\"name\":\"contacts\",\"path\":\"/index.php?rp=/account/contacts\",\"access\":\"read/write\"},{\"name\":\"email-history\",\"path\":\"/clientarea.php?action=emails\",\"access\":\"read\"},{\"name\":\"profile\",\"path\":\"/index.php?rp=/user/profile\",\"access\":\"read/write\"},{\"name\":\"security\",\"path\":\"/index.php?rp=/user/security\",\"access\":\"read/write\"}]}"@
}

/// The report of `features list` (see `features_list_spec`).
pub fn features_list_json() -> (res: String)
    ensures
        res@ == features_list_spec(),
{
    String::from_str(
        "{\"features\":[{\"name\":\"dashboard\",\"path\":\"/clientarea.php\",\"access\":\"read\"},{\"name\":\"products\",\"path\":\"/dashboard/products\",\"access\":\"read\"},{\"name\":\"domains\",\"path\":\"/dashboard/domains\",\"access\":\"read\"},{\"name\":\"domain-details\",\"path\":\"/clientarea.php?action=domaindetails&id=<domain_id>\",\"access\":\"read\"},{\"name\":\"dns-management\",\"path\":\"/clientarea.php?action=domaindns&domainid=<domain_id>\",\"access\":\"read/write\"},{\"name\":\"nameservers\",\"path\":\"/clientarea.php?action=domaindetails&id=<domain_id>#tabNameservers\",\"access\":\"read/write\"},{\"name\":\"private-nameservers\",\"path\":\"/clientarea.php?action=domainregisterns&domainid=<domain_id>\",\"access\":\"read/write\"},{\"name\":\"dnssec\",\"path\":\"/index.php?m=rnadnssec&id=<domain_id>&domain=<domain>\",\"access\":\"read/write\"},{\"name\":\"domain-forwarding\",\"path\":\"/index.php?m=rnadomainforwarding&id=<domain_id>&domain=<domain>\",\"access\":\"read/write\"},{\"name\":\"domain-contacts\",\"path\":\"/clientarea.php?action=domaincontacts&domainid=<domain_id>\",\"access\":\"read/write\"},{\"name\":\"invoices\",\"path\":\"/dashboard/invoices\",\"access\":\"read\"},{\"name\":\"tickets\",\"path\":\"/tickets\",\"access\":\"read/write\"},{\"name\":\"account-details\",\"path\":\"/clientarea.php?action=details\",\"access\":\"read/write\"},{\"name\":\"user-management\",\"path\":\"/index.php?rp=/account/users\",\"access\":\"read/write\"},{\"name\":\"contacts\",\"path\":\"/index.php?rp=/account/contacts\",\"access\":\"read/write\"},{\"name\":\"email-history\",\"path\":\"/clientarea.php?action=emails\",\"access\":\"read\"},{\"name\":\"profile\",\"path\":\"/index.php?rp=/user/profile\",\"access\":\"read/write\"},{\"name\":\"security\",\"path\":\"/index.php?rp=/user/security\",\"access\":\"read/write\"}]}",
    )
}

/// The page that `features forms` inspects: `--path`, or the dashboard.
pub open spec fn forms_path_spec(args: Seq<Seq<char>>) -> Seq<char> {
    match flag_value(args, "--path"@) {
        Some(p) => p,
        None => "/clientarea.php"@,
    }
}

/// The page that `features forms` inspects (see `forms_path_spec`).
pub fn features_forms_path(args: &[String]) -> (res: String)
    ensures
        res@ == forms_path_spec(texts(args@)),
{
    match value_after(args, "--path") {
        Some(p) => String::from_str(p),
        None => String::from_str("/clientarea.php"),
    }
}

/// The report of `features forms` for the page `path` with the HTML
/// `html`: the path and the forms of the page.
pub open spec fn forms_report_spec(path: Seq<char>, html: Seq<char>) -> Seq<char> {
    "{\"path\":\""@ + json_escape_spec(path) + "\",\"forms\":["@ + forms_json_spec(html) + "]}"@
}

/// The report of `features forms` (see `forms_report_spec`).
pub fn forms_report(path: &str, html: &str) -> (res: String)
    ensures
        res@ == forms_report_spec(path@, html@),
{
    let mut out = String::from_str("{\"path\":\"");
    out.append(json_escape(path).as_str());
    out.append("\",\"forms\":[");
    out.append(extract_forms_json(html).as_str());
    out.append("]}");
    out
}

/// The report of `domains list`: the number of domains and the domains.
pub open spec fn domains_report_spec(ds: Seq<DomainView>) -> Seq<char> {
    "{\"count\":"@ + decimal(ds.len()) + ",\"domains\":["@ + join_with(
        ds.map_values(|d: DomainView| domain_json_spec(d)),
        ","@,
    ) + "]}"@
}

/// The report of `domains list` (see `domains_report_spec`).
pub fn domains_list_report(domains: &Vec<DomainInfo>) -> (res: String)
    ensures
        res@ == domains_report_spec(domain_views(domains@)),
{
    let ghost ds = domain_views(domains@);
    let mut items: Vec<String> = Vec::new();
    let mut i: usize = 0;
    while i < domains.len()
        invariant
            i <= domains@.len(),
            ds == domain_views(domains@),
            texts(items@) == ds.take(i as int).map_values(|d: DomainView| domain_json_spec(d)),
        decreases domains@.len() - i,
    {
        let ghost before = texts(items@);
        let j = domain_json(&domains[i]);
        let ghost jv = j@;
        items.push(j);
        assert(texts(items@) =~= before.push(jv));
        assert(ds.take(i + 1).map_values(|d: DomainView| domain_json_spec(d)) =~= ds.take(
            i as int,
        ).map_values(|d: DomainView| domain_json_spec(d)).push(domain_json_spec(ds[i as int])));
        i = i + 1;
    }
    assert(ds.take(domains@.len() as int) =~= ds);
    let mut out = String::from_str("{\"count\":");
    push_decimal(&mut out, domains.len() as u64);
    out.append(",\"domains\":[");
    out.append(join_strings(&items, ",").as_str());
    out.append("]}");
    out
}

/// The page that lists the account's domains.
pub open spec fn domains_page_spec() -> Seq<char> {
    "/dashboard/domains"@
}

/// The page that lists the account's domains (see `domains_page_spec`).
pub fn domains_page() -> (res: String)
    ensures
        res@ == domains_page_spec(),
{
    String::from_str("/dashboard/domains")
}

/// The domains of the account from the answer to a request for the domain
/// list page: the domains that the page lists, or the request's error.
pub fn load_domains(page: Result<String, String>) -> (r: Result<Vec<DomainInfo>, String>)
    ensures
        match page {
            Ok(html) => r matches Ok(ds) && domain_views(ds@) == domains_spec(html@),
            Err(e) => r matches Err(m) && m@ == e@,
        },
{
    match page {
        Ok(html) => Ok(parse_domains(html.as_str())),
        Err(e) => Err(e),
    }
}

/// The domain that the arguments ask about: `--domain`, else the default
/// domain of the settings.
pub open spec fn domain_name_spec(args: Seq<Seq<char>>, m: Map<Seq<char>, Seq<char>>) -> Result<
    Seq<char>,
    Seq<char>,
> {
    match flag_value(args, "--domain"@) {
        Some(d) => Ok(d),
        None => match setting(m, "DOMAINESIA_DEFAULT_DOMAIN"@) {
            Some(d) => Ok(d),
            None => Err("missing --domain and no default domain configured"@),
        },
    }
}

/// The name of the domain that `args` ask about (see `domain_name_spec`);
/// it is then looked up with `resolve_domain`.
pub fn resolve_domain_from_args(args: &[String], config: &Config) -> (r: Result<String, String>)
    ensures
        match r {
            Ok(d) => domain_name_spec(texts(args@), config@) == Ok::<Seq<char>, Seq<char>>(d@),
            Err(e) => domain_name_spec(texts(args@), config@) == Err::<Seq<char>, Seq<char>>(e@),
        },
{
    match value_after(args, "--domain") {
        Some(d) => Ok(String::from_str(d)),
        None => match config.get("DOMAINESIA_DEFAULT_DOMAIN") {
            Some(d) => Ok(String::from_str(d)),
            None => Err(String::from_str("missing --domain and no default domain configured")),
        },
    }
}

/// `i` is the first domain whose name or id is `name`.
pub open spec fn is_first_match(ds: Seq<DomainView>, name: Seq<char>, i: int) -> bool {
    &&& 0 <= i < ds.len()
    &&& (ds[i].domain == name || ds[i].id == name)
    &&& forall|j: int| 0 <= j < i ==> !((#[trigger] ds[j]).domain == name || ds[j].id == name)
}

/// The domain that `resolve_domain` finds.
pub open spec fn resolve_spec(ds: Seq<DomainView>, name: Seq<char>) -> Result<DomainView, Seq<char>> {
    if exists|i: int| is_first_match(ds, name, i) {
        Ok(ds[choose|i: int| is_first_match(ds, name, i)])
    } else {
        Err("domain not found: "@ + name)
    }
}

/// The first of `domains` whose name or id is `name`.
pub fn resolve_domain(domains: Vec<DomainInfo>, name: &str) -> (r: Result<DomainInfo, String>)
    ensures
        match r {
            Ok(d) => resolve_spec(domain_views(domains@), name@) == Ok::<DomainView, Seq<char>>(
                d@,
            ),
            Err(e) => resolve_spec(domain_views(domains@), name@) == Err::<DomainView, Seq<char>>(
                e@,
            ),
        },
{
    let ghost ds = domain_views(domains@);
    let mut list = domains;
    let mut i: usize = 0;
    while i < list.len()
        invariant
            i <= list@.len(),
            ds == domain_views(domains@),
            list@ == domains@,
            forall|j: int| 0 <= j < i ==> !((#[trigger] ds[j]).domain == name@ || ds[j].id == name@),
        decreases list@.len() - i,
    {
        if str_eq(list[i].domain.as_str(), name) || str_eq(list[i].id.as_str(), name) {
            proof {
                assert(is_first_match(ds, name@, i as int));
                let k = choose|k: int| is_first_match(ds, name@, k);
                assert(is_first_match(ds, name@, k));
                if k < i {
                    assert(!(ds[k].domain == name@ || ds[k].id == name@));
                }
                if i < k {
                    assert(!(ds[i as int].domain == name@ || ds[i as int].id == name@));
                }
            }
            let d = list.remove(i);
            assert(d@ == ds[i as int]);
            return Ok(d);
        }
        i = i + 1;
    }
    let mut m = String::from_str("domain not found: ");
    m.append(name);
    Err(m)
}

/// The path of the detail page of the domain with id `id`.
pub open spec fn detail_path_spec(id: Seq<char>) -> Seq<char> {
    "/clientarea.php?action=domaindetails&id="@ + id
}

/// The path of the detail page of the domain with id `id`.
pub fn domain_detail_path(id: &str) -> (res: String)
    ensures
        res@ == detail_path_spec(id@),
{
    let mut p = String::from_str("/clientarea.php?action=domaindetails&id=");
    p.append(id);
    p
}

/// The report of `domains detail`: the domain, its detail and DNS paths,
/// and whether the detail page holds a non-empty CSRF token.
pub open spec fn detail_report_spec(d: DomainView, html: Seq<char>) -> Seq<char> {
    let token = match between(html, "var csrfToken = '"@, "'"@) {
        Some(t) => t,
        None => Seq::empty(),
    };
    "{\"domain\":"@ + domain_json_spec(d) + ",\"detail_path\":\""@ + json_escape_spec(
        detail_path_spec(d.id),
    ) + "\",\"dns_path\":\"/clientarea.php?action=domaindns&domainid="@ + json_escape_spec(d.id)
        + "\",\"csrf_token_present\":"@ + bool_text(token.len() > 0) + "}"@
}

/// The report of `domains detail` for `domain` with its detail page
/// `html` (see `detail_report_spec`).
pub fn domain_detail_report(domain: &DomainInfo, html: &str) -> (res: String)
    ensures
        res@ == detail_report_spec(domain@, html@),
{
    let s = to_chars(html);
    assert(s@.skip(0) =~= s@);
    let present = match between_from(
        s.as_slice(),
        to_chars("var csrfToken = '").as_slice(),
        to_chars("'").as_slice(),
        0,
    ) {
        Some((a, b)) => a < b,
        None => false,
    };
    let mut out = String::from_str("{\"domain\":");
    out.append(domain_json(domain).as_str());
    out.append(",\"detail_path\":\"");
    out.append(json_escape(domain_detail_path(domain.id.as_str()).as_str()).as_str());
    out.append("\",\"dns_path\":\"/clientarea.php?action=domaindns&domainid=");
    out.append(json_escape(domain.id.as_str()).as_str());
    out.append("\",\"csrf_token_present\":");
    push_bool(&mut out, present);
    out.append("}");
    out
}

/// The report of `invoices list`: the invoices of the page.
pub open spec fn invoices_report_spec(html: Seq<char>) -> Seq<char> {
    "{\"invoices\":["@ + invoices_json_spec(html) + "]}"@
}

/// The report of `invoices list` for the invoice page `html`.
pub fn invoices_report(html: &str) -> (res: String)
    ensures
        res@ == invoices_report_spec(html@),
{
    let mut out = String::from_str("{\"invoices\":[");
    out.append(parse_invoices_json(html).as_str());
    out.append("]}");
    out
}

/// The HAR file that `endpoint import-har` reads: the third argument.
pub fn har_path(args: &[String]) -> (r: Result<String, String>)
    ensures
        args@.len() > 2 ==> (r matches Ok(p) && p@ == args@[2]@),
        args@.len() <= 2 ==> (r matches Err(e) && e@
            == "usage: domainesia endpoint import-har <path.har>"@),
{
    if args.len() > 2 {
        Ok(args[2].clone())
    } else {
        Err(String::from_str("usage: domainesia endpoint import-har <path.har>"))
    }
}

/// The report of `endpoint import-har`: the number of candidates, the
/// candidates, and a reminder to review them.
pub open spec fn har_report_spec(text: Seq<char>) -> Seq<char> {
    let c = endpoint_candidates_spec(text);
    "{\"candidate_count\":"@ + decimal(c.len()) + ",\"candidates\":["@ + join_with(
        c.map_values(|x: Seq<char>| "\""@ + json_escape_spec(x) + "\""@),
        ","@,
    )
        + "],\"note\":\"Review candidates manually. Do not store raw cookies or full HAR contents.\"}"@
}

/// The report of `endpoint import-har` for the HAR text `text` (see
/// `har_report_spec`).
pub fn har_report(text: &str) -> (res: String)
    ensures
        res@ == har_report_spec(text@),
{
    let found = extract_endpoint_candidates(text);
    let ghost c = texts(found@);
    let mut quoted: Vec<String> = Vec::new();
    let mut i: usize = 0;
    while i < found.len()
        invariant
            i <= found@.len(),
            c == texts(found@),
            texts(quoted@) == c.take(i as int).map_values(
                |x: Seq<char>| "\""@ + json_escape_spec(x) + "\""@,
            ),
        decreases found@.len() - i,
    {
        let mut q = String::from_str("\"");
        q.append(json_escape(found[i].as_str()).as_str());
        q.append("\"");
        let ghost before = texts(quoted@);
        let ghost qv = q@;
        quoted.push(q);
        assert(texts(quoted@) =~= before.push(qv));
        assert(c.take(i + 1).map_values(|x: Seq<char>| "\""@ + json_escape_spec(x) + "\""@)
            =~= c.take(i as int).map_values(|x: Seq<char>| "\""@ + json_escape_spec(x) + "\""@).push(
            "\""@ + json_escape_spec(c[i as int]) + "\""@,
        ));
        i = i + 1;
    }
    assert(c.take(found@.len() as int) =~= c);
    let mut out = String::from_str("{\"candidate_count\":");
    push_decimal(&mut out, found.len() as u64);
    out.append(",\"candidates\":[");
    out.append(join_strings(&quoted, ",").as_str());
    out.append("],\"note\":\"Review candidates manually. Do not store raw cookies or full HAR contents.\"}");
    out
}

/// The URL that `raw` may fetch: the method (second argument) must be
/// `get`, and the URL (third argument) must be on exactly the host
/// my.domainesia.com or www.domainesia.com.
pub open spec fn raw_spec(args: Seq<Seq<char>>) -> Result<Seq<char>, Seq<char>> {
    if args.len() <= 2 {
        Err("usage: domainesia raw get <url>"@)
    } else if args[1] != "get"@ {
        Err("only raw get is supported without explicit DNS command"@)
    } else if !at_host(args[2], "https://my.domainesia.com"@) && !at_host(
        args[2],
        "https://www.domainesia.com"@,
    ) {
        Err("raw get is restricted to domainesia.com URLs"@)
    } else {
        Ok(args[2])
    }
}

/// The URL that `raw` may fetch (see `raw_spec`).
pub fn cmd_raw(args: &[String]) -> (r: Result<String, String>)
    ensures
        match r {
            Ok(u) => raw_spec(texts(args@)) == Ok::<Seq<char>, Seq<char>>(u@),
            Err(e) => raw_spec(texts(args@)) == Err::<Seq<char>, Seq<char>>(e@),
        },
{
    if args.len() <= 2 {
        return Err(String::from_str("usage: domainesia raw get <url>"));
    }
    if !str_eq(args[1].as_str(), "get") {
        return Err(String::from_str("only raw get is supported without explicit DNS command"));
    }
    let u = to_chars(args[2].as_str());
    if !is_at_host(u.as_slice(), to_chars("https://my.domainesia.com").as_slice())
        && !is_at_host(u.as_slice(), to_chars("https://www.domainesia.com").as_slice()) {
        return Err(String::from_str("raw get is restricted to domainesia.com URLs"));
    }
    Ok(args[2].clone())
}

/// The first `n` characters of `s`, or all of it.
pub open spec fn prefix_of(s: Seq<char>, n: nat) -> Seq<char> {
    if s.len() > n {
        s.take(n as int)
    } else {
        s
    }
}

/// The first `n` characters of `s`, or all of it.
pub fn prefix_chars(s: &str, n: usize) -> (res: String)
    ensures
        res@ == prefix_of(s@, n as nat),
{
    let c = to_chars(s);
    let end = if c.len() > n {
        n
    } else {
        c.len()
    };
    let r = string_of_range(c.as_slice(), 0, end);
    assert(c@.subrange(0, end as int) =~= prefix_of(s@, n as nat));
    r
}

/// The number of bytes of `s` in UTF-8.
pub fn byte_len(s: &str) -> (n: usize)
    ensures
        n == vstd::utf8::encode_utf8(s@).len(),
{
    s.as_bytes().len()
}

/// The report of `raw get`: the URL, the size of the answer in bytes and
/// its first 800 characters.
pub open spec fn raw_report_spec(url: Seq<char>, response: Seq<char>) -> Seq<char> {
    "{\"url\":\""@ + json_escape_spec(url) + "\",\"bytes\":"@ + decimal(
        vstd::utf8::encode_utf8(response).len(),
    ) + ",\"preview\":\""@ + json_escape_spec(prefix_of(response, 800)) + "\"}"@
}

/// The report of `raw get` for `url` that answered `response` (see
/// `raw_report_spec`).
pub fn raw_report(url: &str, response: &str) -> (res: String)
    ensures
        res@ == raw_report_spec(url@, response@),
{
    let mut out = String::from_str("{\"url\":\"");
    out.append(json_escape(url).as_str());
    out.append("\",\"bytes\":");
    push_decimal(&mut out, byte_len(response) as u64);
    out.append(",\"preview\":\"");
    out.append(json_escape(prefix_chars(response, 800).as_str()).as_str());
    out.append("\"}");
    out
}

/// The report of `version`.
pub open spec fn version_report_spec(version: Seq<char>) -> Seq<char> {
    "{\"version\":\""@ + json_escape_spec(version) + "\"}"@
}

/// The report of `version` for the version `version`.
pub fn version_report(version: &str) -> (res: String)
    ensures
        res@ == version_report_spec(version@),
{
    let mut out = String::from_str("{\"version\":\"");
    out.append(json_escape(version).as_str());
    out.append("\"}");
    out
}

} // verus!
