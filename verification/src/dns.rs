//! DNS records from the command line, and the edits that `dns add`,
//! `dns update` and `dns delete` make to the records of a DNS Management
//! form.
use vstd::prelude::*;
use crate::cli::{flag_value, has_flag, value_after, Config};
use crate::escape::{json_escape, json_escape_spec};
use crate::html::{dns_form_spec, parse_dns_form};
use crate::model::{
    dns_form_body, dns_form_body_spec, fqdn, fqdn_spec, record_json, record_json_spec, records_json,
    records_json_spec, record_views, DnsForm, DnsRecord, FormView, RecordView,
};
use crate::model::{bool_text, push_bool};
use crate::number::{decimal, law_decimal_roundtrip, parse_u16, parse_u32, parse_unsigned, push_decimal};
use crate::text::{ascii_uppercase, contains, contains_chars, is_ascii_text, str_eq, texts, to_chars};

verus! {

/// The upper-case form of a text as `str::to_uppercase` gives it: Unicode's
/// full upper-case mapping, which does not depend on the locale.
pub uninterp spec fn uppercase(s: Seq<char>) -> Seq<char>;

/// std `str::to_uppercase`, which returns the upper-case equivalent of the
/// text as a new string. The contract names the result `uppercase` of the
/// input (the same input gives the same result) and states the ASCII case:
/// an ASCII text has each of its lower-case letters made upper-case and
/// keeps every other character (as in the documentation's `"hello"` ->
/// `"HELLO"`). What the Unicode case mapping does to other characters is
/// not stated.
#[verifier::external_body]
fn to_uppercase(s: &str) -> (res: String)
    ensures
        res@ == uppercase(s@),
        is_ascii_text(s@) ==> res@ == ascii_uppercase(s@),
{
    s.to_uppercase()
}

/// A record type as given, in upper case: for an ASCII text each
/// lower-case letter is made upper-case; for any other text it is what
/// `str::to_uppercase` gives (`uppercase`).
pub open spec fn upper_type(t: Seq<char>) -> Seq<char> {
    if is_ascii_text(t) {
        ascii_uppercase(t)
    } else {
        uppercase(t)
    }
}

/// The record types that the CLI writes.
pub open spec fn is_supported_type(t: Seq<char>) -> bool {
    t == "A"@ || t == "AAAA"@ || t == "CNAME"@ || t == "TXT"@ || t == "MX"@
}

/// The value of a setting, if it is set.
pub open spec fn setting(m: Map<Seq<char>, Seq<char>>, key: Seq<char>) -> Option<Seq<char>> {
    if m.contains_key(key) {
        Some(m[key])
    } else {
        None
    }
}

/// The record that the arguments `args` describe once its domain, name and
/// upper-case type are known: the type must be supported; `--value` is
/// needed; `--ttl` (3600 where absent) must read as a `u32`; `--priority`,
/// where present, must read as a `u16`.
pub open spec fn record_from_type_spec(
    args: Seq<Seq<char>>,
    domain: Seq<char>,
    name: Seq<char>,
    record_type: Seq<char>,
) -> Result<RecordView, Seq<char>> {
    if !is_supported_type(record_type) {
        Err("unsupported --type; use A, AAAA, CNAME, TXT, or MX"@)
    } else {
        match flag_value(args, "--value"@) {
            None => Err("missing --value"@),
            Some(value) => {
                let ttl_text = match flag_value(args, "--ttl"@) {
                    Some(t) => t,
                    None => "3600"@,
                };
                match parse_unsigned(ttl_text, 0xffff_ffff) {
                    None => Err("--ttl must be a positive integer"@),
                    Some(ttl) => match flag_value(args, "--priority"@) {
                        None => Ok(
                            RecordView {
                                domain,
                                name,
                                record_type,
                                value,
                                ttl: ttl as u32,
                                priority: None,
                            },
                        ),
                        Some(p) => match parse_unsigned(p, 0xffff) {
                            None => Err("--priority must be an integer"@),
                            Some(pv) => Ok(
                                RecordView {
                                    domain,
                                    name,
                                    record_type,
                                    value,
                                    ttl: ttl as u32,
                                    priority: Some(pv as u16),
                                },
                            ),
                        },
                    },
                }
            },
        }
    }
}

/// The record that the arguments `args` describe, with the settings
/// `settings`: the domain comes from `--domain` or the default domain; a
/// name and a type are needed, and the type is taken in upper case.
pub open spec fn parse_record_spec(args: Seq<Seq<char>>, settings: Map<Seq<char>, Seq<char>>) -> Result<
    RecordView,
    Seq<char>,
> {
    let domain = match flag_value(args, "--domain"@) {
        Some(d) => Some(d),
        None => setting(settings, "DOMAINESIA_DEFAULT_DOMAIN"@),
    };
    match domain {
        None => Err("missing --domain and no DOMAINESIA_DEFAULT_DOMAIN configured"@),
        Some(domain) => match flag_value(args, "--name"@) {
            None => Err("missing --name"@),
            Some(name) => match flag_value(args, "--type"@) {
                None => Err("missing --type"@),
                Some(t) => record_from_type_spec(args, domain, name, upper_type(t)),
            },
        },
    }
}

/// The record that `args` describe, given its domain, name and upper-case
/// type (see `record_from_type_spec`).
pub fn record_from_type(args: &[String], domain: &str, name: &str, record_type: &str) -> (r: Result<
    DnsRecord,
    String,
>)
    ensures
        match r {
            Ok(rec) => record_from_type_spec(texts(args@), domain@, name@, record_type@) == Ok::<
                RecordView,
                Seq<char>,
            >(rec@),
            Err(e) => record_from_type_spec(texts(args@), domain@, name@, record_type@) == Err::<
                RecordView,
                Seq<char>,
            >(e@),
        },
{
    if !(str_eq(record_type, "A") || str_eq(record_type, "AAAA") || str_eq(record_type, "CNAME")
        || str_eq(record_type, "TXT") || str_eq(record_type, "MX")) {
        return Err(String::from_str("unsupported --type; use A, AAAA, CNAME, TXT, or MX"));
    }
    let value = match value_after(args, "--value") {
        Some(v) => v,
        None => {
            return Err(String::from_str("missing --value"));
        },
    };
    let ttl_text = match value_after(args, "--ttl") {
        Some(t) => t,
        None => "3600",
    };
    let ttl = match parse_u32(ttl_text) {
        Some(t) => t,
        None => {
            return Err(String::from_str("--ttl must be a positive integer"));
        },
    };
    let priority = match value_after(args, "--priority") {
        None => None,
        Some(p) => match parse_u16(p) {
            Some(v) => Some(v),
            None => {
                return Err(String::from_str("--priority must be an integer"));
            },
        },
    };
    Ok(
        DnsRecord {
            domain: String::from_str(domain),
            name: String::from_str(name),
            record_type: String::from_str(record_type),
            value: String::from_str(value),
            ttl,
            priority,
        },
    )
}

/// The record that `args` describe with the settings of `config` (see
/// `parse_record_spec`).
pub fn parse_record(args: &[String], config: &Config) -> (r: Result<DnsRecord, String>)
    ensures
        match r {
            Ok(rec) => parse_record_spec(texts(args@), config@) == Ok::<RecordView, Seq<char>>(
                rec@,
            ),
            Err(e) => parse_record_spec(texts(args@), config@) == Err::<RecordView, Seq<char>>(
                e@,
            ),
        },
{
    let domain = match value_after(args, "--domain") {
        Some(d) => d,
        None => match config.get("DOMAINESIA_DEFAULT_DOMAIN") {
            Some(d) => d,
            None => {
                return Err(
                    String::from_str("missing --domain and no DOMAINESIA_DEFAULT_DOMAIN configured"),
                );
            },
        },
    };
    let name = match value_after(args, "--name") {
        Some(n) => n,
        None => {
            return Err(String::from_str("missing --name"));
        },
    };
    let raw_type = match value_after(args, "--type") {
        Some(t) => t,
        None => {
            return Err(String::from_str("missing --type"));
        },
    };
    let upper = to_uppercase(raw_type);
    record_from_type(args, domain, name, upper.as_str())
}

/// `i` is the first position of a record named `name`.
pub open spec fn is_first_named(rs: Seq<RecordView>, name: Seq<char>, i: int) -> bool {
    &&& 0 <= i < rs.len()
    &&& rs[i].name == name
    &&& forall|j: int| 0 <= j < i ==> (#[trigger] rs[j]).name != name
}

/// The position of the first record named `name`.
pub open spec fn first_named(rs: Seq<RecordView>, name: Seq<char>) -> Option<int> {
    if exists|i: int| is_first_named(rs, name, i) {
        Some(choose|i: int| is_first_named(rs, name, i))
    } else {
        None
    }
}

/// The first record named `name` is unique.
pub proof fn lemma_first_named_is(rs: Seq<RecordView>, name: Seq<char>, i: int)
    requires
        is_first_named(rs, name, i),
    ensures
        first_named(rs, name) == Some(i),
{
    let k = choose|k: int| is_first_named(rs, name, k);
    assert(is_first_named(rs, name, k));
    if k < i {
        assert(rs[k].name != name);
    }
    if i < k {
        assert(rs[i].name != name);
    }
}

/// Where no record is named `name`, there is no first one.
pub proof fn lemma_first_named_none(rs: Seq<RecordView>, name: Seq<char>)
    requires
        forall|j: int| 0 <= j < rs.len() ==> (#[trigger] rs[j]).name != name,
    ensures
        first_named(rs, name) is None,
{
}

/// The position of the first record in `records` named `name`.
fn find_named(records: &[DnsRecord], name: &str) -> (r: Option<usize>)
    ensures
        match r {
            Some(i) => i < records@.len() && first_named(record_views(records@), name@) == Some(
                i as int,
            ),
            None => first_named(record_views(records@), name@) is None && forall|j: int|
                0 <= j < records@.len() ==> (#[trigger] records@[j]).name@ != name@,
        },
{
    let ghost rs = record_views(records@);
    let mut i: usize = 0;
    while i < records.len()
        invariant
            i <= records@.len(),
            rs == record_views(records@),
            forall|j: int| 0 <= j < i ==> (#[trigger] records@[j]).name@ != name@,
        decreases records@.len() - i,
    {
        if str_eq(records[i].name.as_str(), name) {
            proof {
                assert forall|j: int| 0 <= j < i implies (#[trigger] rs[j]).name != name@ by {
                    assert(rs[j].name == records@[j].name@);
                }
                lemma_first_named_is(rs, name@, i as int);
            }
            return Some(i);
        }
        i = i + 1;
    }
    proof {
        assert forall|j: int| 0 <= j < rs.len() implies (#[trigger] rs[j]).name != name@ by {
            assert(rs[j].name == records@[j].name@);
        }
        lemma_first_named_none(rs, name@);
    }
    None
}

/// The records after adding `r`: where a record already has its name, `r`
/// replaces the first such record if `replace` is set and is refused
/// otherwise; else `r` goes at the end.
pub open spec fn add_spec(rs: Seq<RecordView>, r: RecordView, replace: bool) -> Result<
    Seq<RecordView>,
    Seq<char>,
> {
    match first_named(rs, r.name) {
        Some(i) => if replace {
            Ok(rs.update(i, r))
        } else {
            Err("record name already exists; use dns update or pass --replace"@)
        },
        None => Ok(rs.push(r)),
    }
}

/// `records` after adding `record` (see `add_spec`).
pub fn apply_add(records: Vec<DnsRecord>, record: DnsRecord, replace: bool) -> (r: Result<
    Vec<DnsRecord>,
    String,
>)
    ensures
        match r {
            Ok(rs) => add_spec(record_views(records@), record@, replace) == Ok::<
                Seq<RecordView>,
                Seq<char>,
            >(record_views(rs@)),
            Err(e) => add_spec(record_views(records@), record@, replace) == Err::<
                Seq<RecordView>,
                Seq<char>,
            >(e@),
        },
{
    let mut records = records;
    let ghost rs = record_views(records@);
    match find_named(records.as_slice(), record.name.as_str()) {
        Some(i) => {
            if !replace {
                return Err(
                    String::from_str("record name already exists; use dns update or pass --replace"),
                );
            }
            let ghost rv = record@;
            records.set(i, record);
            assert(record_views(records@) =~= rs.update(i as int, rv));
            Ok(records)
        },
        None => {
            let ghost rv = record@;
            records.push(record);
            assert(record_views(records@) =~= rs.push(rv));
            Ok(records)
        },
    }
}

/// `r` with the changes of `dns update`: a new value and a new type where
/// given, and where a priority is given, that priority if it reads as a
/// `u16` and none otherwise.
pub open spec fn updated_record(
    r: RecordView,
    value: Option<Seq<char>>,
    record_type: Option<Seq<char>>,
    priority: Option<Seq<char>>,
) -> RecordView {
    RecordView {
        domain: r.domain,
        name: r.name,
        record_type: match record_type {
            Some(t) => t,
            None => r.record_type,
        },
        value: match value {
            Some(v) => v,
            None => r.value,
        },
        ttl: r.ttl,
        priority: match priority {
            Some(p) => match parse_unsigned(p, 0xffff) {
                Some(v) => Some(v as u16),
                None => None,
            },
            None => r.priority,
        },
    }
}

/// The records after `dns update` of the first record named `name`, and
/// that record as updated; refused where no record has the name.
pub open spec fn update_spec(
    rs: Seq<RecordView>,
    name: Seq<char>,
    value: Option<Seq<char>>,
    record_type: Option<Seq<char>>,
    priority: Option<Seq<char>>,
) -> Result<(Seq<RecordView>, RecordView), Seq<char>> {
    match first_named(rs, name) {
        None => Err("record not found"@),
        Some(i) => {
            let u = updated_record(rs[i], value, record_type, priority);
            Ok((rs.update(i, u), u))
        },
    }
}

/// The text of an optional string.
pub open spec fn opt_text(o: Option<&str>) -> Option<Seq<char>> {
    match o {
        Some(s) => Some(s@),
        None => None,
    }
}

/// `records` after updating the first record named `name` (see
/// `update_spec`); `record_type` is already in upper case.
pub fn apply_update(
    records: Vec<DnsRecord>,
    name: &str,
    value: Option<&str>,
    record_type: Option<&str>,
    priority: Option<&str>,
) -> (r: Result<(Vec<DnsRecord>, DnsRecord), String>)
    ensures
        match r {
            Ok((rs, u)) => update_spec(
                record_views(records@),
                name@,
                opt_text(value),
                opt_text(record_type),
                opt_text(priority),
            ) == Ok::<(Seq<RecordView>, RecordView), Seq<char>>((record_views(rs@), u@)),
            Err(e) => update_spec(
                record_views(records@),
                name@,
                opt_text(value),
                opt_text(record_type),
                opt_text(priority),
            ) == Err::<(Seq<RecordView>, RecordView), Seq<char>>(e@),
        },
{
    let mut records = records;
    let ghost rs = record_views(records@);
    match find_named(records.as_slice(), name) {
        None => Err(String::from_str("record not found")),
        Some(i) => {
            let old = &records[i];
            let new_value = match value {
                Some(v) => String::from_str(v),
                None => old.value.clone(),
            };
            let new_type = match record_type {
                Some(t) => String::from_str(t),
                None => old.record_type.clone(),
            };
            let new_priority = match priority {
                Some(p) => parse_u16(p),
                None => old.priority,
            };
            let u = DnsRecord {
                domain: old.domain.clone(),
                name: old.name.clone(),
                record_type: new_type,
                value: new_value,
                ttl: old.ttl,
                priority: new_priority,
            };
            assert(u@ =~= updated_record(
                rs[i as int],
                opt_text(value),
                opt_text(record_type),
                opt_text(priority),
            ));
            let changed = u.duplicate();
            records.set(i, u);
            assert(record_views(records@) =~= rs.update(i as int, changed@));
            Ok((records, changed))
        },
    }
}

/// The records without those named `name`, in order.
pub open spec fn without_name(rs: Seq<RecordView>, name: Seq<char>) -> Seq<RecordView>
    decreases rs.len(),
{
    if rs.len() == 0 {
        Seq::empty()
    } else if rs.last().name == name {
        without_name(rs.drop_last(), name)
    } else {
        without_name(rs.drop_last(), name).push(rs.last())
    }
}

/// The records after `dns delete` of every record named `name`, and the
/// first of them; refused where no record has the name.
pub open spec fn delete_spec(rs: Seq<RecordView>, name: Seq<char>) -> Result<
    (Seq<RecordView>, RecordView),
    Seq<char>,
> {
    match first_named(rs, name) {
        None => Err("record not found"@),
        Some(i) => Ok((without_name(rs, name), rs[i])),
    }
}

/// `records` without those named `name` (see `delete_spec`).
pub fn apply_delete(records: Vec<DnsRecord>, name: &str) -> (r: Result<
    (Vec<DnsRecord>, DnsRecord),
    String,
>)
    ensures
        match r {
            Ok((rs, d)) => delete_spec(record_views(records@), name@) == Ok::<
                (Seq<RecordView>, RecordView),
                Seq<char>,
            >((record_views(rs@), d@)),
            Err(e) => delete_spec(record_views(records@), name@) == Err::<
                (Seq<RecordView>, RecordView),
                Seq<char>,
            >(e@),
        },
{
    let ghost rs = record_views(records@);
    match find_named(records.as_slice(), name) {
        None => Err(String::from_str("record not found")),
        Some(i) => {
            let deleted = records[i].duplicate();
            let mut kept: Vec<DnsRecord> = Vec::new();
            let mut k: usize = 0;
            assert(rs.take(0) =~= Seq::<RecordView>::empty());
            while k < records.len()
                invariant
                    k <= records@.len(),
                    rs == record_views(records@),
                    record_views(kept@) == without_name(rs.take(k as int), name@),
                decreases records@.len() - k,
            {
                assert(rs.take(k + 1).drop_last() =~= rs.take(k as int));
                assert(rs.take(k + 1).last() == records@[k as int]@);
                if !str_eq(records[k].name.as_str(), name) {
                    let ghost before = record_views(kept@);
                    let c = records[k].duplicate();
                    kept.push(c);
                    assert(record_views(kept@) =~= before.push(records@[k as int]@));
                }
                k = k + 1;
            }
            assert(rs.take(records@.len() as int) =~= rs);
            Ok((kept, deleted))
        },
    }
}

/// A DNS form after a change, the record that the change added, updated
/// or deleted, and the backup of the DNS state before the change (the
/// report of `dns list` for the form as it was).
pub struct DnsChange {
    pub form: DnsForm,
    pub changed: Option<DnsRecord>,
    pub backup: String,
}

/// The form `f` with its records replaced by `rs`.
pub open spec fn with_records(f: FormView, rs: Seq<RecordView>) -> FormView {
    FormView { token: f.token, domain_id: f.domain_id, records: rs }
}

/// `c` holds the form `f`, names `r` as the changed record and backs up
/// the form `before` as it was.
pub open spec fn change_is(c: DnsChange, before: FormView, f: FormView, r: RecordView) -> bool {
    &&& c.form@ == f
    &&& c.changed is Some
    &&& c.changed->0@ == r
    &&& c.backup@ == dns_list_spec(before)
}

/// `dns add` through the DNS Management form: the record that the
/// arguments describe, added to the form's records (`--replace` allows
/// replacing a record of the same name).
pub fn cmd_dns_form_add(args: &[String], config: &Config, form: DnsForm) -> (r: Result<
    DnsChange,
    String,
>)
    ensures
        match parse_record_spec(texts(args@), config@) {
            Err(e) => r matches Err(m) && m@ == e,
            Ok(rec) => match add_spec(form@.records, rec, texts(args@).contains("--replace"@)) {
                Err(e) => r matches Err(m) && m@ == e,
                Ok(rs) => r matches Ok(c) && change_is(c, form@, with_records(form@, rs), rec),
            },
        },
{
    let record = match parse_record(args, config) {
        Ok(rec) => rec,
        Err(e) => {
            return Err(e);
        },
    };
    let replace = has_flag(args, "--replace");
    let backup = cmd_dns_list(&form);
    let DnsForm { token, domain_id, records } = form;
    let added = record.duplicate();
    match apply_add(records, added, replace) {
        Ok(rs) => Ok(DnsChange { form: DnsForm { token, domain_id, records: rs }, changed: Some(record), backup }),
        Err(e) => Err(e),
    }
}

/// `dns update`: the first record named `--name` gets the `--value`,
/// `--type` (in upper case) and `--priority` that are given.
pub fn cmd_dns_update(args: &[String], form: DnsForm) -> (r: Result<DnsChange, String>)
    ensures
        match flag_value(texts(args@), "--name"@) {
            None => r matches Err(m) && m@ == "missing --name"@,
            Some(name) => match update_spec(
                form@.records,
                name,
                flag_value(texts(args@), "--value"@),
                match flag_value(texts(args@), "--type"@) {
                    Some(t) => Some(upper_type(t)),
                    None => None,
                },
                flag_value(texts(args@), "--priority"@),
            ) {
                Err(e) => r matches Err(m) && m@ == e,
                Ok((rs, u)) => r matches Ok(c) && change_is(c, form@, with_records(form@, rs), u),
            },
        },
{
    let name = match value_after(args, "--name") {
        Some(n) => n,
        None => {
            return Err(String::from_str("missing --name"));
        },
    };
    let upper = match value_after(args, "--type") {
        Some(t) => Some(to_uppercase(t)),
        None => None,
    };
    let record_type = match &upper {
        Some(u) => Some(u.as_str()),
        None => None,
    };
    let backup = cmd_dns_list(&form);
    let DnsForm { token, domain_id, records } = form;
    match apply_update(
        records,
        name,
        value_after(args, "--value"),
        record_type,
        value_after(args, "--priority"),
    ) {
        Ok((rs, u)) => Ok(DnsChange { form: DnsForm { token, domain_id, records: rs }, changed: Some(u), backup }),
        Err(e) => Err(e),
    }
}

/// `dns delete`: every record named `--name` goes.
pub fn cmd_dns_delete(args: &[String], form: DnsForm) -> (r: Result<DnsChange, String>)
    ensures
        match flag_value(texts(args@), "--name"@) {
            None => r matches Err(m) && m@ == "missing --name"@,
            Some(name) => match delete_spec(form@.records, name) {
                Err(e) => r matches Err(m) && m@ == e,
                Ok((rs, d)) => r matches Ok(c) && change_is(c, form@, with_records(form@, rs), d),
            },
        },
{
    let name = match value_after(args, "--name") {
        Some(n) => n,
        None => {
            return Err(String::from_str("missing --name"));
        },
    };
    let backup = cmd_dns_list(&form);
    let DnsForm { token, domain_id, records } = form;
    match apply_delete(records, name) {
        Ok((rs, d)) => Ok(DnsChange { form: DnsForm { token, domain_id, records: rs }, changed: Some(d), backup }),
        Err(e) => Err(e),
    }
}

/// The path of the DNS Management page of the domain with id `domain_id`.
pub open spec fn dns_page_path_spec(domain_id: Seq<char>) -> Seq<char> {
    "/clientarea.php?action=domaindns&domainid="@ + domain_id
}

/// The path of the DNS Management page of the domain with id `domain_id`.
pub fn dns_page_path(domain_id: &str) -> (res: String)
    ensures
        res@ == dns_page_path_spec(domain_id@),
{
    let mut p = String::from_str("/clientarea.php?action=domaindns&domainid=");
    p.append(domain_id);
    p
}

/// The DNS Management form read from the page `html` of `domain`, or the
/// error that the CLI reports where the page holds none.
pub fn load_dns_form(html: &str, domain: &str) -> (r: Result<DnsForm, String>)
    ensures
        match dns_form_spec(html@, domain@) {
            Some(f) => r matches Ok(form) && form@ == f,
            None => r matches Err(e) && e@ == "failed to parse DNS management form"@,
        },
{
    match parse_dns_form(html, domain) {
        Some(f) => Ok(f),
        None => Err(String::from_str("failed to parse DNS management form")),
    }
}

/// The report of `dns list`: the domain id, the number of records and the
/// records.
pub open spec fn dns_list_spec(f: FormView) -> Seq<char> {
    "{\"domain_id\":\""@ + json_escape_spec(f.domain_id) + "\",\"record_count\":"@ + decimal(
        f.records.len(),
    ) + ",\"records\":["@ + records_json_spec(f.records) + "]}"@
}

/// The report of `dns list` for `form` (see `dns_list_spec`).
pub fn cmd_dns_list(form: &DnsForm) -> (res: String)
    ensures
        res@ == dns_list_spec(form@),
{
    let mut out = String::from_str("{\"domain_id\":\"");
    out.append(json_escape(form.domain_id.as_str()).as_str());
    out.append("\",\"record_count\":");
    push_decimal(&mut out, form.records.len() as u64);
    out.append(",\"records\":[");
    out.append(records_json(form.records.as_slice()).as_str());
    out.append("]}");
    out
}

/// The file that `dns export` writes: `--output`, which is needed.
pub open spec fn export_path_spec(args: Seq<Seq<char>>) -> Result<Seq<char>, Seq<char>> {
    match flag_value(args, "--output"@) {
        Some(p) => Ok(p),
        None => Err("missing --output <file>"@),
    }
}

/// The file that `dns export` writes (see `export_path_spec`); the file
/// holds the report of `dns list`.
pub fn dns_export_path(args: &[String]) -> (r: Result<String, String>)
    ensures
        match export_path_spec(texts(args@)) {
            Ok(p) => r matches Ok(x) && x@ == p,
            Err(e) => r matches Err(m) && m@ == e,
        },
{
    match value_after(args, "--output") {
        Some(p) => Ok(String::from_str(p)),
        None => Err(String::from_str("missing --output <file>")),
    }
}

/// The report of `dns export`: the domain id, the number of records and the
/// file they were written to.
pub open spec fn export_report_spec(f: FormView, output: Seq<char>) -> Seq<char> {
    "{\"domain_id\":\""@ + json_escape_spec(f.domain_id) + "\",\"record_count\":"@ + decimal(
        f.records.len(),
    ) + ",\"output\":\""@ + json_escape_spec(output) + "\"}"@
}

/// The report of `dns export` of `form` to `output` (see
/// `export_report_spec`).
pub fn dns_export_report(form: &DnsForm, output: &str) -> (res: String)
    ensures
        res@ == export_report_spec(form@, output@),
{
    let mut out = String::from_str("{\"domain_id\":\"");
    out.append(json_escape(form.domain_id.as_str()).as_str());
    out.append("\",\"record_count\":");
    push_decimal(&mut out, form.records.len() as u64);
    out.append(",\"output\":\"");
    out.append(json_escape(output).as_str());
    out.append("\"}");
    out
}

/// What to do with a changed DNS form.
pub enum DnsSubmission {
    /// Print this dry-run report and change nothing.
    Preview { report: String },
    /// Write `backup`, then post `body` to `path` of MyDomaiNesia.
    Post { path: String, body: String, backup: String },
}

/// A record in a report: its JSON object, or `null`.
pub open spec fn changed_json(c: Option<RecordView>) -> Seq<char> {
    match c {
        Some(r) => record_json_spec(r),
        None => "null"@,
    }
}

/// The dry-run report of a DNS write: the domain id, the number of records
/// the form would hold, the changed record and where the form would go.
pub open spec fn dns_preview_spec(f: FormView, changed: Option<RecordView>) -> Seq<char> {
    "{\"mode\":\"dry-run\",\"domain_id\":\""@ + json_escape_spec(f.domain_id)
        + "\",\"record_count\":"@ + decimal(f.records.len()) + ",\"changed\":"@ + changed_json(changed)
        + ",\"post_path\":\"/clientarea.php?action=domaindns\"}"@
}

/// Why a live DNS write may not go ahead, if it may not: live writes must be
/// allowed (`DOMAINESIA_ALLOW_LIVE_WRITES=1`), and `--confirm` must name the
/// fully qualified name of the changed record.
pub open spec fn live_write_refusal(
    args: Seq<Seq<char>>,
    changed: Option<RecordView>,
    allowed: bool,
) -> Option<Seq<char>> {
    if !allowed {
        Some("live DNS writes require DOMAINESIA_ALLOW_LIVE_WRITES=1"@)
    } else {
        match changed {
            Some(r) => if flag_value(args, "--confirm"@) == Some(fqdn_spec(r.name, r.domain)) {
                None
            } else {
                Some("live DNS writes require --confirm <fqdn> of the changed record"@)
            },
            None => Some("live DNS writes require --confirm <fqdn> of the changed record"@),
        }
    }
}

/// The view of an optional record.
pub open spec fn opt_record(c: Option<DnsRecord>) -> Option<RecordView> {
    match c {
        Some(r) => Some(r@),
        None => None,
    }
}

/// Why a live DNS write of the changed record may not go ahead, if it may
/// not (see `live_write_refusal`).
pub fn check_live_write(args: &[String], changed: &Option<DnsRecord>, allowed: bool) -> (r: Option<
    String,
>)
    ensures
        match live_write_refusal(texts(args@), opt_record(*changed), allowed) {
            Some(m) => r matches Some(e) && e@ == m,
            None => r is None,
        },
{
    if !allowed {
        return Some(String::from_str("live DNS writes require DOMAINESIA_ALLOW_LIVE_WRITES=1"));
    }
    match changed {
        Some(rec) => {
            let target = fqdn(rec);
            match value_after(args, "--confirm") {
                Some(c) => {
                    if str_eq(c, target.as_str()) {
                        return None;
                    }
                },
                None => {},
            }
            Some(String::from_str("live DNS writes require --confirm <fqdn> of the changed record"))
        },
        None => Some(String::from_str("live DNS writes require --confirm <fqdn> of the changed record")),
    }
}

/// What to do with the changed form of `change`: without `--live`, only a
/// dry-run report; with it, post the whole form to the DNS Management page
/// where `check_live_write` allows the write, else refuse.
pub fn submit_or_preview_dns_form(args: &[String], change: &DnsChange, live_writes_allowed: bool) -> (r: Result<
    DnsSubmission,
    String,
>)
    ensures
        !texts(args@).contains("--live"@) ==> (r matches Ok(DnsSubmission::Preview { report })
            && report@ == dns_preview_spec(change.form@, opt_record(change.changed))),
        texts(args@).contains("--live"@) ==> match live_write_refusal(
            texts(args@),
            opt_record(change.changed),
            live_writes_allowed,
        ) {
            Some(m) => r matches Err(e) && e@ == m,
            None => r matches Ok(DnsSubmission::Post { path, body, backup }) && path@
                == "/clientarea.php?action=domaindns"@ && body@ == dns_form_body_spec(change.form@)
                && backup@ == change.backup@,
        },
        (r matches Ok(DnsSubmission::Post { .. })) ==> texts(args@).contains("--live"@)
            && live_writes_allowed && live_write_refusal(
            texts(args@),
            opt_record(change.changed),
            live_writes_allowed,
        ) is None,
{
    if !has_flag(args, "--live") {
        let mut report = String::from_str("{\"mode\":\"dry-run\",\"domain_id\":\"");
        report.append(json_escape(change.form.domain_id.as_str()).as_str());
        report.append("\",\"record_count\":");
        push_decimal(&mut report, change.form.records.len() as u64);
        report.append(",\"changed\":");
        match &change.changed {
            Some(rec) => report.append(record_json(rec).as_str()),
            None => report.append("null"),
        }
        report.append(",\"post_path\":\"/clientarea.php?action=domaindns\"}");
        return Ok(DnsSubmission::Preview { report });
    }
    match check_live_write(args, &change.changed, live_writes_allowed) {
        Some(e) => Err(e),
        None => Ok(
            DnsSubmission::Post {
                path: String::from_str("/clientarea.php?action=domaindns"),
                body: dns_form_body(&change.form),
                backup: change.backup.clone(),
            },
        ),
    }
}

/// The report of a live DNS write: the domain id, the number of records
/// posted, whether the answer looks like success (it mentions `DNS
/// Management` or `Changes Saved`) and the answer's size in bytes.
pub open spec fn dns_live_report_spec(f: FormView, response: Seq<char>) -> Seq<char> {
    "{\"mode\":\"live\",\"domain_id\":\""@ + json_escape_spec(f.domain_id) + "\",\"record_count\":"@
        + decimal(f.records.len()) + ",\"success_hint\":"@ + bool_text(
        contains(response, "DNS Management"@) || contains(response, "Changes Saved"@),
    ) + ",\"response_bytes\":"@ + decimal(vstd::utf8::encode_utf8(response).len()) + "}"@
}

/// The report of a live DNS write of `form` that got `response` (see
/// `dns_live_report_spec`).
pub fn dns_live_report(form: &DnsForm, response: &str) -> (res: String)
    ensures
        res@ == dns_live_report_spec(form@, response@),
{
    let r = to_chars(response);
    let success = contains_chars(r.as_slice(), to_chars("DNS Management").as_slice())
        || contains_chars(r.as_slice(), to_chars("Changes Saved").as_slice());
    let mut out = String::from_str("{\"mode\":\"live\",\"domain_id\":\"");
    out.append(json_escape(form.domain_id.as_str()).as_str());
    out.append("\",\"record_count\":");
    push_decimal(&mut out, form.records.len() as u64);
    out.append(",\"success_hint\":");
    push_bool(&mut out, success);
    out.append(",\"response_bytes\":");
    let bytes = response.as_bytes();
    push_decimal(&mut out, bytes.len() as u64);
    out.append("}");
    out
}

/// The CSRF header line of the settings: `HEADER: TOKEN` where both the
/// header name and the token are set.
pub open spec fn csrf_header_spec(m: Map<Seq<char>, Seq<char>>) -> Option<Seq<char>> {
    if m.contains_key("DOMAINESIA_CSRF_HEADER"@) && m.contains_key("DOMAINESIA_CSRF_TOKEN"@) {
        Some(m["DOMAINESIA_CSRF_HEADER"@] + ": "@ + m["DOMAINESIA_CSRF_TOKEN"@])
    } else {
        None
    }
}

/// The CSRF header line of `config` (see `csrf_header_spec`).
pub fn csrf_header(config: &Config) -> (r: Option<String>)
    ensures
        match csrf_header_spec(config@) {
            Some(h) => r matches Some(x) && x@ == h,
            None => r is None,
        },
{
    match (config.get("DOMAINESIA_CSRF_HEADER"), config.get("DOMAINESIA_CSRF_TOKEN")) {
        (Some(header), Some(token)) => {
            let mut h = String::from_str(header);
            h.append(": ");
            h.append(token);
            Some(h)
        },
        _ => None,
    }
}

/// What `dns add` does in endpoint mode, as texts.
pub enum DnsAddPlan {
    ThroughForm,
    Preview(Seq<char>),
    Post {
        endpoint: Seq<char>,
        cookie_jar: Seq<char>,
        payload: Seq<char>,
        csrf: Option<Seq<char>>,
        record: RecordView,
    },
}

/// What `dns add` does: through the DNS Management form unless an
/// endpoint is given (`--endpoint`) or configured. The endpoint mode is
/// experimental and must be enabled; it reads the record, prints a dry-run
/// report unless `--live` is given without `--dry-run`, and for a live add
/// needs an endpoint, a configured cookie jar that is a readable file
/// (`jar_readable`), `curl` (`curl_available`) and a write that
/// `live_write_refusal` allows, then posts the record's JSON.
pub open spec fn dns_add_spec(
    args: Seq<Seq<char>>,
    m: Map<Seq<char>, Seq<char>>,
    experimental: bool,
    allowed: bool,
    jar_readable: bool,
    curl_available: bool,
) -> Result<DnsAddPlan, Seq<char>> {
    if !args.contains("--endpoint"@) && !m.contains_key("DOMAINESIA_DNS_ADD_ENDPOINT"@) {
        Ok(DnsAddPlan::ThroughForm)
    } else if !experimental {
        Err("endpoint-driven DNS mode is experimental; set DOMAINESIA_ENABLE_EXPERIMENTAL_ENDPOINTS=1"@)
    } else {
        match parse_record_spec(args, m) {
            Err(e) => Err(e),
            Ok(rec) => {
                let live = args.contains("--live"@);
                let dry_run = args.contains("--dry-run"@) || !live;
                let endpoint = match flag_value(args, "--endpoint"@) {
                    Some(e) => Some(e),
                    None => setting(m, "DOMAINESIA_DNS_ADD_ENDPOINT"@),
                };
                if dry_run {
                    Ok(
                        DnsAddPlan::Preview(
                            "{\"mode\":\"dry-run\",\"ready_for_live\":"@ + bool_text(endpoint is Some)
                                + ",\"endpoint_configured\":"@ + bool_text(endpoint is Some)
                                + ",\"record\":"@ + record_json_spec(rec) + "}"@,
                        ),
                    )
                } else {
                    match endpoint {
                        None => Err("live add requires --endpoint or DOMAINESIA_DNS_ADD_ENDPOINT"@),
                        Some(endpoint) => match setting(m, "DOMAINESIA_COOKIE_JAR"@) {
                            None => Err("live add requires DOMAINESIA_COOKIE_JAR in config"@),
                            Some(jar) => if !jar_readable {
                                Err("configured cookie jar is not readable"@)
                            } else if !curl_available {
                                Err("curl is required for live requests"@)
                            } else {
                                match live_write_refusal(args, Some(rec), allowed) {
                                    Some(e) => Err(e),
                                    None => Ok(
                                        DnsAddPlan::Post {
                                            endpoint,
                                            cookie_jar: jar,
                                            payload: record_json_spec(rec),
                                            csrf: csrf_header_spec(m),
                                            record: rec,
                                        },
                                    ),
                                }
                            },
                        },
                    }
                }
            },
        }
    }
}

/// What `dns add` does (see `dns_add_spec`).
pub enum DnsAddAction {
    /// Add the record through the DNS Management form.
    ThroughForm,
    /// Print this dry-run report and change nothing.
    Preview { report: String },
    /// Post `payload` to `endpoint` with the cookies of `cookie_jar` and,
    /// where there is one, the CSRF header line `csrf`.
    Post { endpoint: String, cookie_jar: String, payload: String, csrf: Option<String>, record: DnsRecord },
}

/// The texts of an optional string.
pub open spec fn opt_string(o: Option<String>) -> Option<Seq<char>> {
    match o {
        Some(s) => Some(s@),
        None => None,
    }
}

/// The plan that an action carries out.
pub open spec fn add_plan(a: DnsAddAction) -> DnsAddPlan {
    match a {
        DnsAddAction::ThroughForm => DnsAddPlan::ThroughForm,
        DnsAddAction::Preview { report } => DnsAddPlan::Preview(report@),
        DnsAddAction::Post { endpoint, cookie_jar, payload, csrf, record } => DnsAddPlan::Post {
            endpoint: endpoint@,
            cookie_jar: cookie_jar@,
            payload: payload@,
            csrf: opt_string(csrf),
            record: record@,
        },
    }
}

/// What `dns add` does with the arguments `args` and the settings of
/// `config`; `experimental` says whether endpoint mode is enabled,
/// `live_writes_allowed` whether live writes are, `jar_readable` whether the
/// configured cookie jar is a readable file and `curl_available` whether
/// `curl` is on the search path (see `dns_add_spec`).
pub fn cmd_dns_add(
    args: &[String],
    config: &Config,
    experimental: bool,
    live_writes_allowed: bool,
    jar_readable: bool,
    curl_available: bool,
) -> (r: Result<DnsAddAction, String>)
    ensures
        match dns_add_spec(
            texts(args@),
            config@,
            experimental,
            live_writes_allowed,
            jar_readable,
            curl_available,
        ) {
            Ok(p) => r matches Ok(a) && add_plan(a) == p,
            Err(e) => r matches Err(m) && m@ == e,
        },
{
    if !has_flag(args, "--endpoint") && config.get("DOMAINESIA_DNS_ADD_ENDPOINT").is_none() {
        return Ok(DnsAddAction::ThroughForm);
    }
    if !experimental {
        return Err(
            String::from_str(
                "endpoint-driven DNS mode is experimental; set DOMAINESIA_ENABLE_EXPERIMENTAL_ENDPOINTS=1",
            ),
        );
    }
    let record = match parse_record(args, config) {
        Ok(rec) => rec,
        Err(e) => {
            return Err(e);
        },
    };
    let live = has_flag(args, "--live");
    let dry_run = has_flag(args, "--dry-run") || !live;
    let endpoint = match value_after(args, "--endpoint") {
        Some(e) => Some(e),
        None => config.get("DOMAINESIA_DNS_ADD_ENDPOINT"),
    };
    if dry_run {
        let mut report = String::from_str("{\"mode\":\"dry-run\",\"ready_for_live\":");
        push_bool(&mut report, endpoint.is_some());
        report.append(",\"endpoint_configured\":");
        push_bool(&mut report, endpoint.is_some());
        report.append(",\"record\":");
        report.append(record_json(&record).as_str());
        report.append("}");
        return Ok(DnsAddAction::Preview { report });
    }
    let endpoint = match endpoint {
        Some(e) => e,
        None => {
            return Err(String::from_str("live add requires --endpoint or DOMAINESIA_DNS_ADD_ENDPOINT"));
        },
    };
    let cookie_jar = match config.get("DOMAINESIA_COOKIE_JAR") {
        Some(c) => c,
        None => {
            return Err(String::from_str("live add requires DOMAINESIA_COOKIE_JAR in config"));
        },
    };
    if !jar_readable {
        return Err(String::from_str("configured cookie jar is not readable"));
    }
    if !curl_available {
        return Err(String::from_str("curl is required for live requests"));
    }
    let changed = Some(record.duplicate());
    match check_live_write(args, &changed, live_writes_allowed) {
        Some(e) => {
            return Err(e);
        },
        None => {},
    }
    Ok(
        DnsAddAction::Post {
            endpoint: String::from_str(endpoint),
            cookie_jar: String::from_str(cookie_jar),
            payload: record_json(&record),
            csrf: csrf_header(config),
            record,
        },
    )
}

/// The report of a live add through an endpoint: the record and the size
/// of the answer in bytes; the answer itself is not shown.
pub open spec fn dns_add_live_report_spec(r: RecordView, response: Seq<char>) -> Seq<char> {
    "{\"mode\":\"live\",\"record\":"@ + record_json_spec(r) + ",\"response_bytes\":"@
        + decimal(vstd::utf8::encode_utf8(response).len()) + "}"@
}

/// The report of a live add of `record` that got `response` (see
/// `dns_add_live_report_spec`).
pub fn dns_add_live_report(record: &DnsRecord, response: &str) -> (res: String)
    ensures
        res@ == dns_add_live_report_spec(record@, response@),
{
    let mut out = String::from_str("{\"mode\":\"live\",\"record\":");
    out.append(record_json(record).as_str());
    out.append(",\"response_bytes\":");
    let bytes = response.as_bytes();
    push_decimal(&mut out, bytes.len() as u64);
    out.append("}");
    out
}

/// Where some record is named `name`, there is a first one.
pub proof fn lemma_first_named_exists(rs: Seq<RecordView>, name: Seq<char>, j: int)
    requires
        0 <= j < rs.len(),
        rs[j].name == name,
    ensures
        first_named(rs, name) is Some,
    decreases j,
{
    if forall|k: int| 0 <= k < j ==> (#[trigger] rs[k]).name != name {
        lemma_first_named_is(rs, name, j);
    } else {
        let k = choose|k: int| 0 <= k < j && (#[trigger] rs[k]).name == name;
        lemma_first_named_exists(rs, name, k);
    }
}

/// Replacing a record named `name` by another named `name` leaves the
/// records without that name as they were.
proof fn lemma_without_name_update(rs: Seq<RecordView>, i: int, r: RecordView, name: Seq<char>)
    requires
        0 <= i < rs.len(),
        rs[i].name == name,
        r.name == name,
    ensures
        without_name(rs.update(i, r), name) == without_name(rs, name),
    decreases rs.len(),
{
    let u = rs.update(i, r);
    if i < rs.len() - 1 {
        lemma_without_name_update(rs.drop_last(), i, r, name);
        assert(u.drop_last() =~= rs.drop_last().update(i, r));
        assert(u.last() == rs.last());
    } else {
        assert(u.drop_last() =~= rs.drop_last());
    }
}

/// After `dns delete`, no record has the deleted name.
pub proof fn law_delete_removes_name(rs: Seq<RecordView>, name: Seq<char>)
    ensures
        forall|k: int| 0 <= k < without_name(rs, name).len() ==> (#[trigger] without_name(
            rs,
            name,
        )[k]).name != name,
        without_name(rs, name).len() <= rs.len(),
    decreases rs.len(),
{
    if rs.len() > 0 {
        law_delete_removes_name(rs.drop_last(), name);
        let p = without_name(rs.drop_last(), name);
        if rs.last().name != name {
            assert forall|k: int| 0 <= k < p.push(rs.last()).len() implies (#[trigger] p.push(
                rs.last(),
            )[k]).name != name by {
                if k < p.len() {
                    assert(p.push(rs.last())[k] == p[k]);
                }
            }
        }
    }
}

/// `dns delete` keeps every record that has another name, in order: where
/// no record has the name, nothing changes.
pub proof fn law_delete_keeps_others(rs: Seq<RecordView>, name: Seq<char>)
    requires
        forall|j: int| 0 <= j < rs.len() ==> (#[trigger] rs[j]).name != name,
    ensures
        without_name(rs, name) == rs,
    decreases rs.len(),
{
    if rs.len() > 0 {
        law_delete_keeps_others(rs.drop_last(), name);
        assert(rs.last() == rs[rs.len() - 1]);
        assert(rs.drop_last().push(rs.last()) =~= rs);
    }
}

/// Deleting the name of a record just added removes the added record and
/// leaves exactly the records that had other names before.
pub proof fn law_add_then_delete(rs: Seq<RecordView>, r: RecordView, replace: bool)
    requires
        add_spec(rs, r, replace) is Ok,
    ensures
        delete_spec(add_spec(rs, r, replace)->Ok_0, r.name) == Ok::<
            (Seq<RecordView>, RecordView),
            Seq<char>,
        >((without_name(rs, r.name), r)),
{
    let n = r.name;
    match first_named(rs, n) {
        None => {
            let rs2 = rs.push(r);
            assert forall|j: int| 0 <= j < rs.len() implies (#[trigger] rs[j]).name != n by {
                if rs[j].name == n {
                    lemma_first_named_exists(rs, n, j);
                }
            }
            assert forall|j: int| 0 <= j < rs.len() implies (#[trigger] rs2[j]).name != n by {
                assert(rs2[j] == rs[j]);
            }
            lemma_first_named_is(rs2, n, rs.len() as int);
            assert(rs2.drop_last() =~= rs);
        },
        Some(i) => {
            assert(is_first_named(rs, n, i));
            let rs2 = rs.update(i, r);
            assert forall|j: int| 0 <= j < i implies (#[trigger] rs2[j]).name != n by {
                assert(rs2[j] == rs[j]);
            }
            lemma_first_named_is(rs2, n, i);
            lemma_without_name_update(rs, i, r, n);
        },
    }
}

/// `dns update` changes one record, the first with the name, and keeps its
/// domain, name and TTL; every other record stays as it was.
pub proof fn law_update_changes_one(
    rs: Seq<RecordView>,
    name: Seq<char>,
    value: Option<Seq<char>>,
    record_type: Option<Seq<char>>,
    priority: Option<Seq<char>>,
)
    requires
        update_spec(rs, name, value, record_type, priority) is Ok,
    ensures
        ({
            let (rs2, u) = update_spec(rs, name, value, record_type, priority)->Ok_0;
            let i = first_named(rs, name)->0;
            &&& rs2.len() == rs.len()
            &&& rs2[i] == u
            &&& u.name == name && u.domain == rs[i].domain && u.ttl == rs[i].ttl
            &&& forall|j: int| 0 <= j < rs.len() && j != i ==> rs2[j] == rs[j]
        }),
{
    let i = first_named(rs, name)->0;
    assert(is_first_named(rs, name, i));
}

/// `dns add` keeps the form's records: every record stays in its place,
/// except that with `--replace` the first record of the added name is
/// replaced; the added record is in the result.
pub proof fn law_add_keeps_others(rs: Seq<RecordView>, r: RecordView, replace: bool)
    requires
        add_spec(rs, r, replace) is Ok,
    ensures
        ({
            let rs2 = add_spec(rs, r, replace)->Ok_0;
            &&& rs2.len() >= rs.len()
            &&& rs2.contains(r)
            &&& forall|j: int|
                0 <= j < rs.len() && first_named(rs, r.name) != Some(j) ==> rs2[j] == rs[j]
        }),
{
    let rs2 = add_spec(rs, r, replace)->Ok_0;
    match first_named(rs, r.name) {
        Some(i) => {
            assert(is_first_named(rs, r.name, i));
            assert(rs2[i] == r);
        },
        None => {
            assert(rs2[rs.len() as int] == r);
        },
    }
}

/// A live DNS write goes ahead only where live writes are allowed and
/// `--confirm` names the fully qualified name of the changed record; an
/// endpoint add posts only when endpoint mode is enabled, `--live` is given
/// without `--dry-run`, and the same confirmation holds for the added
/// record.
pub proof fn law_live_dns_writes_are_gated(
    args: Seq<Seq<char>>,
    m: Map<Seq<char>, Seq<char>>,
    changed: Option<RecordView>,
    experimental: bool,
    allowed: bool,
    jar_readable: bool,
    curl_available: bool,
)
    ensures
        live_write_refusal(args, changed, allowed) is None ==> {
            &&& allowed
            &&& changed is Some
            &&& flag_value(args, "--confirm"@) == Some(fqdn_spec(changed->0.name, changed->0.domain))
        },
        (dns_add_spec(args, m, experimental, allowed, jar_readable, curl_available) matches Ok(
            DnsAddPlan::Post { .. },
        )) ==> {
            &&& experimental
            &&& allowed
            &&& args.contains("--live"@)
            &&& !args.contains("--dry-run"@)
            &&& parse_record_spec(args, m) is Ok
            &&& flag_value(args, "--confirm"@) == Some(
                fqdn_spec(parse_record_spec(args, m)->Ok_0.name, parse_record_spec(args, m)->Ok_0.domain),
            )
        },
{
}

/// Every record read from the command line has one of the supported types
/// (A, AAAA, CNAME, TXT or MX), its domain, name and value as given, and a
/// TTL of 3600 unless `--ttl` says otherwise.
pub proof fn law_parsed_records_are_supported(args: Seq<Seq<char>>, m: Map<Seq<char>, Seq<char>>)
    ensures
        parse_record_spec(args, m) matches Ok(rec) ==> {
            &&& is_supported_type(rec.record_type)
            &&& flag_value(args, "--name"@) == Some(rec.name)
            &&& flag_value(args, "--value"@) == Some(rec.value)
            &&& (flag_value(args, "--ttl"@) is None ==> rec.ttl == 3600)
        },
{
    reveal_strlit("3600");
    assert(decimal(3600) =~= "3600"@) by {
        reveal_with_fuel(decimal, 5);
    }
    law_decimal_roundtrip(3600, 0xffff_ffff);
}

/// `dns update` sets exactly what is given and keeps the rest of the first
/// record with the name: a `--value` or `--type` that is given replaces the
/// record's, one that is not keeps it; a `--priority` that is given becomes
/// the priority where it reads as a `u16` (and clears it otherwise), and
/// without `--priority` the record keeps its priority.
pub proof fn law_update_sets_only_given_fields(
    rs: Seq<RecordView>,
    name: Seq<char>,
    value: Option<Seq<char>>,
    record_type: Option<Seq<char>>,
    priority: Option<Seq<char>>,
)
    requires
        update_spec(rs, name, value, record_type, priority) is Ok,
    ensures
        ({
            let u = update_spec(rs, name, value, record_type, priority)->Ok_0.1;
            let old = rs[first_named(rs, name)->0];
            &&& (value is None ==> u.value == old.value)
            &&& (value matches Some(v) ==> u.value == v)
            &&& (record_type is None ==> u.record_type == old.record_type)
            &&& (record_type matches Some(t) ==> u.record_type == t)
            &&& (priority is None ==> u.priority == old.priority)
            &&& (priority matches Some(p) ==> (u.priority matches Some(n) ==> parse_unsigned(
                p,
                0xffff,
            ) == Some(n as nat)))
            &&& (priority matches Some(p) ==> (parse_unsigned(p, 0xffff) is None <==> u.priority
                is None))
            &&& u.domain == old.domain
            &&& u.ttl == old.ttl
        }),
{
}

/// An explicit `--domain` is the domain of the record read from the
/// command line; without it the record takes the configured default domain.
pub proof fn law_record_domain_choice(args: Seq<Seq<char>>, m: Map<Seq<char>, Seq<char>>)
    ensures
        parse_record_spec(args, m) matches Ok(rec) ==> match flag_value(args, "--domain"@) {
            Some(d) => rec.domain == d,
            None => m.contains_key("DOMAINESIA_DEFAULT_DOMAIN"@) && rec.domain
                == m["DOMAINESIA_DEFAULT_DOMAIN"@],
        },
        flag_value(args, "--domain"@) is None && !m.contains_key("DOMAINESIA_DEFAULT_DOMAIN"@)
            ==> parse_record_spec(args, m) is Err,
{
}

} // verus!
