//! DNS records, domains and the DNS Management form, with the JSON and form
//! encodings that the CLI prints and posts.
use vstd::prelude::*;
use crate::escape::{json_escape, json_escape_spec, url_encode, url_encode_spec};
use crate::number::{decimal, push_decimal};
use crate::text::{
    chars_eq, ends_with, ends_with_chars, join_strings, join_with, push_range, str_eq, texts,
    to_chars, trim_end_char, trim_end_char_len,
};

verus! {

/// One DNS record of a domain.
pub struct DnsRecord {
    pub domain: String,
    pub name: String,
    pub record_type: String,
    pub value: String,
    pub ttl: u32,
    pub priority: Option<u16>,
}

/// One domain of the account, as the domain list shows it.
pub struct DomainInfo {
    pub id: String,
    pub domain: String,
    pub registration_date: String,
    pub next_due_date: String,
    pub status: String,
}

/// The DNS Management form of one domain: its anti-forgery token, the
/// domain's id and the records the form holds, in order.
pub struct DnsForm {
    pub token: String,
    pub domain_id: String,
    pub records: Vec<DnsRecord>,
}

/// What a DNS record holds.
pub struct RecordView {
    pub domain: Seq<char>,
    pub name: Seq<char>,
    pub record_type: Seq<char>,
    pub value: Seq<char>,
    pub ttl: u32,
    pub priority: Option<u16>,
}

impl View for DnsRecord {
    type V = RecordView;

    open spec fn view(&self) -> RecordView {
        RecordView {
            domain: self.domain@,
            name: self.name@,
            record_type: self.record_type@,
            value: self.value@,
            ttl: self.ttl,
            priority: self.priority,
        }
    }
}

/// What a domain entry holds.
pub struct DomainView {
    pub id: Seq<char>,
    pub domain: Seq<char>,
    pub registration_date: Seq<char>,
    pub next_due_date: Seq<char>,
    pub status: Seq<char>,
}

impl View for DomainInfo {
    type V = DomainView;

    open spec fn view(&self) -> DomainView {
        DomainView {
            id: self.id@,
            domain: self.domain@,
            registration_date: self.registration_date@,
            next_due_date: self.next_due_date@,
            status: self.status@,
        }
    }
}

/// What a DNS Management form holds.
pub struct FormView {
    pub token: Seq<char>,
    pub domain_id: Seq<char>,
    pub records: Seq<RecordView>,
}

/// The views of a list of records.
pub open spec fn record_views(rs: Seq<DnsRecord>) -> Seq<RecordView> {
    rs.map_values(|r: DnsRecord| r@)
}

impl View for DnsForm {
    type V = FormView;

    open spec fn view(&self) -> FormView {
        FormView { token: self.token@, domain_id: self.domain_id@, records: record_views(self.records@) }
    }
}

impl DnsRecord {
    /// A copy of this record.
    pub fn duplicate(&self) -> (r: DnsRecord)
        ensures
            r@ == self@,
    {
        DnsRecord {
            domain: self.domain.clone(),
            name: self.name.clone(),
            record_type: self.record_type.clone(),
            value: self.value.clone(),
            ttl: self.ttl,
            priority: self.priority,
        }
    }
}

/// The fully qualified name of a record called `name` in `domain`: the
/// domain itself for `@` or the domain's own name, the name as it is where
/// it already ends with the domain, else the name without trailing dots,
/// a dot and the domain.
pub open spec fn fqdn_spec(name: Seq<char>, domain: Seq<char>) -> Seq<char> {
    if name == "@"@ || name == domain {
        domain
    } else if ends_with(name, domain) {
        name
    } else {
        trim_end_char(name, '.') + "."@ + domain
    }
}

/// The fully qualified name of `record` (see `fqdn_spec`).
pub fn fqdn(record: &DnsRecord) -> (res: String)
    ensures
        res@ == fqdn_spec(record@.name, record@.domain),
{
    let name = to_chars(record.name.as_str());
    let domain = to_chars(record.domain.as_str());
    if str_eq(record.name.as_str(), "@") || chars_eq(name.as_slice(), domain.as_slice()) {
        record.domain.clone()
    } else if ends_with_chars(name.as_slice(), domain.as_slice()) {
        record.name.clone()
    } else {
        let n = trim_end_char_len(name.as_slice(), '.');
        let mut out = String::new();
        push_range(&mut out, name.as_slice(), 0, n);
        out.append(".");
        out.append(record.domain.as_str());
        assert(name@.subrange(0, n as int) =~= name@.take(n as int));
        assert(out@ =~= fqdn_spec(record.name@, record.domain@));
        out
    }
}

/// `true` or `false`, as a bool is printed.
pub open spec fn bool_text(b: bool) -> Seq<char> {
    if b {
        "true"@
    } else {
        "false"@
    }
}

/// Appends `true` or `false` to `out`.
pub fn push_bool(out: &mut String, b: bool)
    ensures
        final(out)@ == old(out)@ + bool_text(b),
{
    if b {
        out.append("true");
    } else {
        out.append("false");
    }
}

/// A record's priority in JSON: the number, or `null`.
pub open spec fn priority_json(p: Option<u16>) -> Seq<char> {
    match p {
        Some(v) => decimal(v as nat),
        None => "null"@,
    }
}

/// A record as a JSON object with its domain, name, fully qualified name,
/// type, value, TTL and priority.
pub open spec fn record_json_spec(r: RecordView) -> Seq<char> {
    "{\"domain\":\""@ + json_escape_spec(r.domain) + "\",\"name\":\""@ + json_escape_spec(r.name)
        + "\",\"fqdn\":\""@ + json_escape_spec(fqdn_spec(r.name, r.domain)) + "\",\"type\":\""@
        + json_escape_spec(r.record_type) + "\",\"value\":\""@ + json_escape_spec(r.value)
        + "\",\"ttl\":"@ + decimal(r.ttl as nat) + ",\"priority\":"@ + priority_json(r.priority)
        + "}"@
}

/// `record` as a JSON object (see `record_json_spec`).
pub fn record_json(record: &DnsRecord) -> (res: String)
    ensures
        res@ == record_json_spec(record@),
{
    let mut out = String::new();
    out.append("{\"domain\":\"");
    out.append(json_escape(record.domain.as_str()).as_str());
    out.append("\",\"name\":\"");
    out.append(json_escape(record.name.as_str()).as_str());
    out.append("\",\"fqdn\":\"");
    out.append(json_escape(fqdn(record).as_str()).as_str());
    out.append("\",\"type\":\"");
    out.append(json_escape(record.record_type.as_str()).as_str());
    out.append("\",\"value\":\"");
    out.append(json_escape(record.value.as_str()).as_str());
    out.append("\",\"ttl\":");
    push_decimal(&mut out, record.ttl as u64);
    out.append(",\"priority\":");
    match record.priority {
        Some(v) => push_decimal(&mut out, v as u64),
        None => out.append("null"),
    }
    out.append("}");
    out
}

/// The JSON objects of `records`, separated by commas.
pub open spec fn records_json_spec(records: Seq<RecordView>) -> Seq<char> {
    join_with(records.map_values(|r: RecordView| record_json_spec(r)), ","@)
}

/// The JSON objects of `records`, separated by commas.
pub fn records_json(records: &[DnsRecord]) -> (res: String)
    ensures
        res@ == records_json_spec(record_views(records@)),
{
    let mut items: Vec<String> = Vec::new();
    let mut i: usize = 0;
    while i < records.len()
        invariant
            i <= records@.len(),
            texts(items@) == record_views(records@).take(i as int).map_values(
                |r: RecordView| record_json_spec(r),
            ),
        decreases records@.len() - i,
    {
        let ghost before = items@;
        let j = record_json(&records[i]);
        let ghost jv = j@;
        items.push(j);
        assert(texts(items@) =~= texts(before).push(jv));
        assert(record_views(records@).take(i + 1).map_values(|r: RecordView| record_json_spec(r))
            =~= record_views(records@).take(i as int).map_values(
            |r: RecordView| record_json_spec(r),
        ).push(record_json_spec(records@[i as int]@)));
        i = i + 1;
    }
    assert(record_views(records@).take(records@.len() as int) =~= record_views(records@));
    join_strings(&items, ",")
}

/// A domain as a JSON object with its id, name, dates, status and the
/// paths of its detail and DNS pages.
pub open spec fn domain_json_spec(d: DomainView) -> Seq<char> {
    "{\"id\":\""@ + json_escape_spec(d.id) + "\",\"domain\":\""@ + json_escape_spec(d.domain)
        + "\",\"registration_date\":\""@ + json_escape_spec(d.registration_date)
        + "\",\"next_due_date\":\""@ + json_escape_spec(d.next_due_date) + "\",\"status\":\""@
        + json_escape_spec(d.status) + "\",\"detail_path\":\"/clientarea.php?action=domaindetails&id="@
        + json_escape_spec(d.id) + "\",\"dns_path\":\"/clientarea.php?action=domaindns&domainid="@
        + json_escape_spec(d.id) + "\"}"@
}

/// `domain` as a JSON object (see `domain_json_spec`).
pub fn domain_json(domain: &DomainInfo) -> (res: String)
    ensures
        res@ == domain_json_spec(domain@),
{
    let id = json_escape(domain.id.as_str());
    let mut out = String::new();
    out.append("{\"id\":\"");
    out.append(id.as_str());
    out.append("\",\"domain\":\"");
    out.append(json_escape(domain.domain.as_str()).as_str());
    out.append("\",\"registration_date\":\"");
    out.append(json_escape(domain.registration_date.as_str()).as_str());
    out.append("\",\"next_due_date\":\"");
    out.append(json_escape(domain.next_due_date.as_str()).as_str());
    out.append("\",\"status\":\"");
    out.append(json_escape(domain.status.as_str()).as_str());
    out.append("\",\"detail_path\":\"/clientarea.php?action=domaindetails&id=");
    out.append(id.as_str());
    out.append("\",\"dns_path\":\"/clientarea.php?action=domaindns&domainid=");
    out.append(id.as_str());
    out.append("\"}");
    out
}

/// The plan printed for adding `r`: its fully qualified name, the record,
/// the manual steps, and that the plan is not safe to run live.
pub open spec fn record_plan_json_spec(r: RecordView) -> Seq<char> {
    "{\"fqdn\":\""@ + json_escape_spec(fqdn_spec(r.name, r.domain)) + "\",\"record\":"@
        + record_json_spec(r)
        + ",\"steps\":[\"Open MyDomaiNesia DNS Management for the domain\",\"Create or edit the matching record\",\"Verify propagation after save\"],\"safe_to_run_live\":false}"@
}

/// The plan for adding `record` (see `record_plan_json_spec`).
pub fn record_plan_json(record: &DnsRecord) -> (res: String)
    ensures
        res@ == record_plan_json_spec(record@),
{
    let mut out = String::new();
    out.append("{\"fqdn\":\"");
    out.append(json_escape(fqdn(record).as_str()).as_str());
    out.append("\",\"record\":");
    out.append(record_json(record).as_str());
    out.append(
        ",\"steps\":[\"Open MyDomaiNesia DNS Management for the domain\",\"Create or edit the matching record\",\"Verify propagation after save\"],\"safe_to_run_live\":false}",
    );
    out
}

/// One `key=value` field of a form body, both sides form-encoded.
pub open spec fn form_field(key: Seq<char>, value: Seq<char>) -> Seq<char> {
    url_encode_spec(vstd::utf8::encode_utf8(key)) + "="@ + url_encode_spec(
        vstd::utf8::encode_utf8(value),
    )
}

/// A record's priority as the form takes it: the number, or `N/A`.
pub open spec fn priority_field(p: Option<u16>) -> Seq<char> {
    match p {
        Some(v) => decimal(v as nat),
        None => "N/A"@,
    }
}

/// The five form fields of one record: an empty record id, host, type,
/// address and priority.
pub open spec fn record_fields(r: RecordView) -> Seq<Seq<char>> {
    seq![
        form_field("dnsrecid[]"@, Seq::empty()),
        form_field("dnsrecordhost[]"@, r.name),
        form_field("dnsrecordtype[]"@, r.record_type),
        form_field("dnsrecordaddress[]"@, r.value),
        form_field("dnsrecordpriority[]"@, priority_field(r.priority)),
    ]
}

/// The fields of all records, in order.
pub open spec fn records_fields(rs: Seq<RecordView>) -> Seq<Seq<char>>
    decreases rs.len(),
{
    if rs.len() == 0 {
        Seq::empty()
    } else {
        records_fields(rs.drop_last()) + record_fields(rs.last())
    }
}

/// The body that saves `form`: the token, `sub=save` and the domain id,
/// then the fields of every record, joined with `&`.
pub open spec fn dns_form_body_spec(form: FormView) -> Seq<char> {
    join_with(
        seq![
            form_field("token"@, form.token),
            form_field("sub"@, "save"@),
            form_field("domainid"@, form.domain_id),
        ] + records_fields(form.records),
        "&"@,
    )
}

fn form_field_exec(key: &str, value: &str) -> (res: String)
    ensures
        res@ == form_field(key@, value@),
{
    let mut out = url_encode(key);
    out.append("=");
    out.append(url_encode(value).as_str());
    out
}

/// The form-encoded body that saves `form` (see `dns_form_body_spec`).
pub fn dns_form_body(form: &DnsForm) -> (res: String)
    ensures
        res@ == dns_form_body_spec(form@),
{
    let mut fields: Vec<String> = Vec::new();
    fields.push(form_field_exec("token", form.token.as_str()));
    fields.push(form_field_exec("sub", "save"));
    fields.push(form_field_exec("domainid", form.domain_id.as_str()));
    let ghost head = seq![
        form_field("token"@, form@.token),
        form_field("sub"@, "save"@),
        form_field("domainid"@, form@.domain_id),
    ];
    let ghost rs = form@.records;
    assert(texts(fields@) =~= head + records_fields(rs.take(0)));
    let mut i: usize = 0;
    while i < form.records.len()
        invariant
            i <= form.records@.len(),
            rs == record_views(form.records@),
            texts(fields@) == head + records_fields(rs.take(i as int)),
        decreases form.records@.len() - i,
    {
        let r = &form.records[i];
        let ghost before = texts(fields@);
        fields.push(form_field_exec("dnsrecid[]", ""));
        fields.push(form_field_exec("dnsrecordhost[]", r.name.as_str()));
        fields.push(form_field_exec("dnsrecordtype[]", r.record_type.as_str()));
        fields.push(form_field_exec("dnsrecordaddress[]", r.value.as_str()));
        let priority = match r.priority {
            Some(v) => {
                let mut p = String::new();
                push_decimal(&mut p, v as u64);
                p
            },
            None => String::from_str("N/A"),
        };
        assert(priority@ == priority_field(r.priority));
        fields.push(form_field_exec("dnsrecordpriority[]", priority.as_str()));
        proof {
            reveal_strlit("");
            assert(rs.take(i + 1).drop_last() =~= rs.take(i as int));
            assert(rs.take(i + 1).last() == r@);
            assert(texts(fields@) =~= before + record_fields(r@));
        }
        i = i + 1;
    }
    assert(rs.take(form.records@.len() as int) =~= rs);
    join_strings(&fields, "&")
}

/// A fully qualified name always ends with the domain.
pub proof fn law_fqdn_ends_with_domain(name: Seq<char>, domain: Seq<char>)
    ensures
        ends_with(fqdn_spec(name, domain), domain),
{
    let f = fqdn_spec(name, domain);
    if name == "@"@ || name == domain {
        assert(f.subrange(f.len() - domain.len(), f.len() as int) =~= domain);
    } else if ends_with(name, domain) {
    } else {
        assert(f.subrange(f.len() - domain.len(), f.len() as int) =~= domain);
    }
}

/// Qualifying a fully qualified name again changes nothing.
pub proof fn law_fqdn_idempotent(name: Seq<char>, domain: Seq<char>)
    ensures
        fqdn_spec(fqdn_spec(name, domain), domain) == fqdn_spec(name, domain),
{
    reveal_strlit("@");
    reveal_strlit(".");
    law_fqdn_ends_with_domain(name, domain);
    let f = fqdn_spec(name, domain);
    if f == "@"@ {
        if name == "@"@ || name == domain {
        } else if ends_with(name, domain) {
        } else {
            let t = trim_end_char(name, '.');
            assert(f == t + "."@ + domain);
            assert(f.len() == 1);
            assert(f[t.len() as int] == '.');
        }
    }
}

} // verus!
