//! Reading values out of the HTML pages of MyDomaiNesia: text between
//! markers, attributes, form inputs, and the domain, DNS, invoice and form
//! listings built from them.
use vstd::prelude::*;
use crate::escape::{json_escape, json_escape_spec};
use crate::markup::{clean_html, clean_html_spec, html_unescape, html_unescape_spec};
use crate::model::{record_views, DnsForm, DnsRecord, DomainInfo, DomainView, FormView, RecordView};
use crate::number::{parse_u16, parse_unsigned};
use crate::text::{
    before_first, before_first_chars, char_vecs, ascii_lowercase, ascii_lowercase_chars, contains, contains_chars, copy_range, chars_eq, find, find_chars, find_from,
    lemma_find_some, lemma_split_nonempty, replace_all, replace_chars, rfind, rfind_before, split, split_chars,
    join_strings, join_with, string_of, starts_with, starts_with_chars, string_of_range, texts, to_chars, trim, trim_bounds,
};

verus! {

/// The text between the first `start` in `s` and the first `end` after it
/// (`split_once(start)` then `split_once(end)`).
pub open spec fn between(s: Seq<char>, start: Seq<char>, end: Seq<char>) -> Option<Seq<char>> {
    match find(s, start) {
        None => None,
        Some(i) => {
            let a = s.skip(i + start.len());
            match find(a, end) {
                None => None,
                Some(j) => Some(a.take(j)),
            }
        },
    }
}

/// Every text between a `start` and the next `end`, scanning left to right
/// and resuming after each `end`, until one of them is missing.
pub open spec fn all_between(s: Seq<char>, start: Seq<char>, end: Seq<char>) -> Seq<Seq<char>>
    decreases s.len(),
{
    if start.len() + end.len() == 0 {
        Seq::empty()
    } else {
        match find(s, start) {
            None => Seq::empty(),
            Some(i) => {
                proof {
                    lemma_find_some(s, start);
                }
                let a = s.skip(i + start.len());
                match find(a, end) {
                    None => Seq::empty(),
                    Some(j) => {
                        proof {
                            lemma_find_some(a, end);
                        }
                        seq![a.take(j)] + all_between(a.skip(j + end.len()), start, end)
                    },
                }
            },
        }
    }
}

/// The bounds in `s` of the text between the first `start` at or after
/// `from` and the first `end` after it.
pub fn between_from(s: &[char], start: &[char], end: &[char], from: usize) -> (r: Option<
    (usize, usize),
>)
    requires
        from <= s@.len(),
    ensures
        match r {
            Some((a, b)) => from <= a <= b && b + end@.len() <= s@.len() && between(
                s@.skip(from as int),
                start@,
                end@,
            ) == Some(s@.subrange(a as int, b as int)) && a >= start@.len() + from && find(
                s@.skip(from as int),
                start@,
            ) == Some(a - start@.len() - from) && find(s@.skip(a as int), end@) == Some(
                b - a,
            ),
            None => between(s@.skip(from as int), start@, end@) is None,
        },
{
    let n = s.len();
    match find_from(s, start, from) {
        None => None,
        Some(k) => {
            let a = k + start.len();
            proof {
                assert(s@.skip(from as int).skip(k - from + start@.len()) =~= s@.skip(a as int));
            }
            match find_from(s, end, a) {
                None => None,
                Some(m) => {
                    proof {
                        assert(s@.skip(a as int).take(m - a) =~= s@.subrange(a as int, m as int));
                    }
                    Some((a, m))
                },
            }
        },
    }
}

/// The texts between each `start` and the next `end` in `s`.
pub fn all_between_chars(s: &[char], start: &[char], end: &[char]) -> (res: Vec<String>)
    requires
        start@.len() + end@.len() > 0,
    ensures
        texts(res@) == all_between(s@, start@, end@),
{
    let n = s.len();
    let mut values: Vec<String> = Vec::new();
    let mut p: usize = 0;
    assert(s@.skip(0) =~= s@);
    assert(texts(values@) + all_between(s@, start@, end@) =~= all_between(s@, start@, end@));
    loop
        invariant
            p <= s@.len(),
            n == s@.len(),
            start@.len() + end@.len() > 0,
            all_between(s@, start@, end@) == texts(values@) + all_between(
                s@.skip(p as int),
                start@,
                end@,
            ),
        ensures
            all_between(s@, start@, end@) == texts(values@),
        decreases s@.len() - p,
    {
        let ghost rest = s@.skip(p as int);
        match between_from(s, start, end, p) {
            None => {
                proof {
                    match find(rest, start@) {
                        None => {},
                        Some(i) => {
                            lemma_find_some(rest, start@);
                        },
                    }
                }
                assert(all_between(rest, start@, end@) =~= Seq::<Seq<char>>::empty());
                assert(texts(values@) + Seq::<Seq<char>>::empty() =~= texts(values@));
                break;
            },
            Some((a, b)) => {
                let ghost before = texts(values@);
                let v = string_of_range(s, a, b);
                let ghost vv = v@;
                values.push(v);
                proof {
                    lemma_find_some(rest, start@);
                    let i = find(rest, start@)->0;
                    assert(i == a - start@.len() - p);
                    let aa = rest.skip(i + start@.len());
                    assert(aa =~= s@.skip(a as int));
                    lemma_find_some(aa, end@);
                    assert(aa.skip(b - a + end@.len()) =~= s@.skip(b + end@.len()));
                    assert(texts(values@) =~= before.push(vv));
                    assert(before + all_between(rest, start@, end@) =~= texts(values@)
                        + all_between(s@.skip(b + end@.len()), start@, end@));
                }
                p = b + end.len();
            },
        }
    }
    values
}

/// The text between the first `start` in `input` and the first `end` after
/// it.
pub fn extract_between(input: &str, start: &str, end: &str) -> (r: Option<String>)
    ensures
        match r {
            Some(v) => between(input@, start@, end@) == Some(v@),
            None => between(input@, start@, end@) is None,
        },
{
    let s = to_chars(input);
    let a = to_chars(start);
    let b = to_chars(end);
    assert(s@.skip(0) =~= s@);
    match between_from(s.as_slice(), a.as_slice(), b.as_slice(), 0) {
        Some((lo, hi)) => Some(string_of_range(s.as_slice(), lo, hi)),
        None => None,
    }
}

/// Every text between a `start` and the next `end` in `input`, left to
/// right.
pub fn extract_all_between(input: &str, start: &str, end: &str) -> (res: Vec<String>)
    requires
        start@.len() + end@.len() > 0,
    ensures
        texts(res@) == all_between(input@, start@, end@),
{
    let s = to_chars(input);
    let a = to_chars(start);
    let b = to_chars(end);
    all_between_chars(s.as_slice(), a.as_slice(), b.as_slice())
}

/// The value of the attribute `name` in `s`: the text of the first
/// `name="..."`, else of the first `name='...'`.
pub open spec fn attr_value_spec(s: Seq<char>, name: Seq<char>) -> Option<Seq<char>> {
    match between(s, name + "=\""@, "\""@) {
        Some(v) => Some(v),
        None => between(s, name + "='"@, "'"@),
    }
}

/// The characters of `a` followed by those of `b`.
fn join_chars(a: &[char], b: &[char]) -> (res: Vec<char>)
    ensures
        res@ == a@ + b@,
{
    let mut out = copy_range(a, 0, a.len());
    let mut k: usize = 0;
    assert(out@ =~= a@ + b@.take(0));
    while k < b.len()
        invariant
            k <= b@.len(),
            out@ == a@ + b@.take(k as int),
        decreases b@.len() - k,
    {
        out.push(b[k]);
        assert(b@.take(k + 1) =~= b@.take(k as int).push(b@[k as int]));
        assert(out@ =~= a@ + b@.take(k + 1));
        k = k + 1;
    }
    assert(b@.take(b@.len() as int) =~= b@);
    out
}

/// The characters of `a` followed by those of `b`.
fn concat_chars(a: &[char], b: &str) -> (res: Vec<char>)
    ensures
        res@ == a@ + b@,
{
    let t = to_chars(b);
    join_chars(a, t.as_slice())
}

/// The value of the attribute `name` in `s` (see `attr_value_spec`).
pub fn attr_value_chars(s: &[char], name: &[char]) -> (r: Option<String>)
    ensures
        match r {
            Some(v) => attr_value_spec(s@, name@) == Some(v@),
            None => attr_value_spec(s@, name@) is None,
        },
{
    let double = concat_chars(name, "=\"");
    let single = concat_chars(name, "='");
    let dq = to_chars("\"");
    let sq = to_chars("'");
    assert(s@.skip(0) =~= s@);
    match between_from(s, double.as_slice(), dq.as_slice(), 0) {
        Some((a, b)) => Some(string_of_range(s, a, b)),
        None => match between_from(s, single.as_slice(), sq.as_slice(), 0) {
            Some((a, b)) => Some(string_of_range(s, a, b)),
            None => None,
        },
    }
}

/// The value of the attribute `name` in `input`: the text of the first
/// `name="..."`, else of the first `name='...'`.
pub fn attr_value(input: &str, name: &str) -> (r: Option<String>)
    ensures
        match r {
            Some(v) => attr_value_spec(input@, name@) == Some(v@),
            None => attr_value_spec(input@, name@) is None,
        },
{
    let s = to_chars(input);
    let n = to_chars(name);
    attr_value_chars(s.as_slice(), n.as_slice())
}

/// The `value` attribute of the tag holding the first `name="<name>"` in
/// `row`: the tag runs from the last `<input` before that text (or from the
/// text itself) to the first `>` after it (or to the end); empty where
/// there is no such text or no value.
pub open spec fn input_value_spec(row: Seq<char>, name: Seq<char>) -> Seq<char> {
    match find(row, "name=\""@ + name + "\""@) {
        None => Seq::empty(),
        Some(pos) => {
            let tag_start = match rfind(row.take(pos), "<input"@) {
                Some(k) => k,
                None => pos,
            };
            let tag_end = match find(row.skip(pos), ">"@) {
                Some(e) => pos + e,
                None => row.len() as int,
            };
            match attr_value_spec(row.subrange(tag_start, tag_end), "value"@) {
                Some(v) => v,
                None => Seq::empty(),
            }
        },
    }
}

/// The value of the input named `name` in `row` (see `input_value_spec`).
pub fn input_value_chars(row: &[char], name: &[char]) -> (res: String)
    ensures
        res@ == input_value_spec(row@, name@),
{
    let prefix = to_chars("name=\"");
    let key = concat_chars(join_chars(prefix.as_slice(), name).as_slice(), "\"");
    let n = row.len();
    match find_chars(row, key.as_slice()) {
        None => String::new(),
        Some(pos) => {
            let input_tag = to_chars("<input");
            let gt = to_chars(">");
            let tag_start = match rfind_before(row, input_tag.as_slice(), pos) {
                Some(k) => k,
                None => pos,
            };
            let tag_end = match find_from(row, gt.as_slice(), pos) {
                Some(e) => e,
                None => n,
            };
            let tag = copy_range(row, tag_start, tag_end);
            let value = to_chars("value");
            match attr_value_chars(tag.as_slice(), value.as_slice()) {
                Some(v) => v,
                None => String::new(),
            }
        },
    }
}

/// The value of the input named `name` in the table row `row`.
pub fn input_value_after_name(row: &str, name: &str) -> (res: String)
    ensures
        res@ == input_value_spec(row@, name@),
{
    let r = to_chars(row);
    let n = to_chars(name);
    input_value_chars(r.as_slice(), n.as_slice())
}

/// The `value` of the `<option` that the first `selected="selected"` in
/// `row` belongs to.
pub open spec fn selected_option_spec(row: Seq<char>) -> Option<Seq<char>> {
    match find(row, "selected=\"selected\""@) {
        None => None,
        Some(sp) => {
            let before = row.take(sp);
            match rfind(before, "<option"@) {
                None => None,
                Some(op) => attr_value_spec(before.skip(op), "value"@),
            }
        },
    }
}

/// The value of the selected option in `row` (see `selected_option_spec`).
pub fn selected_option_chars(row: &[char]) -> (r: Option<String>)
    ensures
        match r {
            Some(v) => selected_option_spec(row@) == Some(v@),
            None => selected_option_spec(row@) is None,
        },
{
    let marker = to_chars("selected=\"selected\"");
    match find_chars(row, marker.as_slice()) {
        None => None,
        Some(sp) => {
            let option = to_chars("<option");
            match rfind_before(row, option.as_slice(), sp) {
                None => None,
                Some(op) => {
                    let tail = copy_range(row, op, sp);
                    assert(tail@ =~= row@.take(sp as int).skip(op as int));
                    let value = to_chars("value");
                    attr_value_chars(tail.as_slice(), value.as_slice())
                },
            }
        },
    }
}

/// The value of the selected option in the table row `row`.
pub fn selected_option_value(row: &str) -> (r: Option<String>)
    ensures
        match r {
            Some(v) => selected_option_spec(row@) == Some(v@),
            None => selected_option_spec(row@) is None,
        },
{
    let r = to_chars(row);
    selected_option_chars(r.as_slice())
}

/// A domain's status as the list shows it, with `active` and `expired`
/// capitalised.
pub open spec fn status_text(raw: Seq<char>) -> Seq<char> {
    replace_all(replace_all(raw, "active"@, "Active"@), "expired"@, "Expired"@)
}

/// The row of a domain entry: `rest` up to its first `</tr>`.
pub open spec fn entry_window(rest: Seq<char>) -> Seq<char> {
    match find(rest, "</tr>"@) {
        Some(k) => rest.take(k),
        None => rest,
    }
}

/// The domain entry that starts with `rest` (just after its
/// `data-element-id="`), whose `data-domain="` is at `dp`: the id and the
/// domain up to the next quote, the first two hidden dates of the row, and
/// the row's status.
pub open spec fn domain_entry(rest: Seq<char>, dp: int) -> DomainView {
    let window = entry_window(rest);
    let hidden = all_between(window, "<span class=\"w-hidden\">"@, "</span>"@);
    DomainView {
        id: before_first(rest, "\""@),
        domain: before_first(rest.skip(dp + "data-domain=\""@.len()), "\""@),
        registration_date: if hidden.len() > 0 {
            hidden[0]
        } else {
            Seq::empty()
        },
        next_due_date: if hidden.len() > 1 {
            hidden[1]
        } else {
            Seq::empty()
        },
        status: status_text(
            match between(window, "status status-"@, "\""@) {
                Some(v) => v,
                None => Seq::empty(),
            },
        ),
    }
}

/// The domains listed in the page `s`: one entry for each
/// `data-element-id="` that a `data-domain="` follows, in order.
pub open spec fn domains_spec(s: Seq<char>) -> Seq<DomainView>
    decreases s.len(),
{
    match find(s, "data-element-id=\""@) {
        None => Seq::empty(),
        Some(pos) => {
            proof {
                lemma_find_some(s, "data-element-id=\""@);
                reveal_strlit("data-element-id=\"");
            }
            let rest = s.skip(pos + "data-element-id=\""@.len());
            match find(rest, "data-domain=\""@) {
                None => domains_spec(rest),
                Some(dp) => seq![domain_entry(rest, dp)] + domains_spec(rest),
            }
        },
    }
}

/// The views of a list of domains.
pub open spec fn domain_views(ds: Seq<DomainInfo>) -> Seq<DomainView> {
    ds.map_values(|d: DomainInfo| d@)
}

/// `s[from..]` up to the first `sep` after `from`.
fn piece_from(s: &[char], sep: &[char], from: usize) -> (res: String)
    requires
        from <= s@.len(),
    ensures
        res@ == before_first(s@.skip(from as int), sep@),
{
    match find_from(s, sep, from) {
        Some(q) => {
            let r = string_of_range(s, from, q);
            assert(s@.skip(from as int).take(q - from) =~= s@.subrange(from as int, q as int));
            r
        },
        None => {
            let r = string_of_range(s, from, s.len());
            assert(s@.skip(from as int) =~= s@.subrange(from as int, s@.len() as int));
            r
        },
    }
}

/// The domain entry starting at `p` in `s`, with its `data-domain="` at
/// `d` (see `domain_entry`).
fn domain_entry_at(s: &[char], p: usize, d: usize) -> (res: DomainInfo)
    requires
        p <= d,
        d + "data-domain=\""@.len() <= s@.len(),
    ensures
        res@ == domain_entry(s@.skip(p as int), d - p),
{
    proof {
        reveal_strlit("data-domain=\"");
        reveal_strlit("active");
        reveal_strlit("expired");
        reveal_strlit("</span>");
        reveal_strlit("<span class=\"w-hidden\">");
    }
    let n = s.len();
    let quote = to_chars("\"");
    let ghost rest = s@.skip(p as int);
    let id = piece_from(s, quote.as_slice(), p);
    let domain = piece_from(s, quote.as_slice(), d + 13);
    assert(rest.skip(d - p + 13) =~= s@.skip(d + 13));
    let tr_end = to_chars("</tr>");
    let wend = match find_from(s, tr_end.as_slice(), p) {
        Some(w) => w,
        None => n,
    };
    let window = copy_range(s, p, wend);
    assert(window@ =~= entry_window(rest));
    let span = to_chars("<span class=\"w-hidden\">");
    let span_end = to_chars("</span>");
    let hidden = all_between_chars(window.as_slice(), span.as_slice(), span_end.as_slice());
    let registration_date = if hidden.len() > 0 {
        hidden[0].clone()
    } else {
        String::new()
    };
    let next_due_date = if hidden.len() > 1 {
        hidden[1].clone()
    } else {
        String::new()
    };
    let status_marker = to_chars("status status-");
    assert(window@.skip(0) =~= window@);
    let raw = match between_from(window.as_slice(), status_marker.as_slice(), quote.as_slice(), 0) {
        Some((a, b)) => copy_range(window.as_slice(), a, b),
        None => Vec::new(),
    };
    let s1 = replace_chars(raw.as_slice(), to_chars("active").as_slice(), to_chars("Active").as_slice());
    let s2 = replace_chars(s1.as_slice(), to_chars("expired").as_slice(), to_chars("Expired").as_slice());
    let status = string_of(s2.as_slice());
    let res = DomainInfo { id, domain, registration_date, next_due_date, status };
    assert(res@ =~= domain_entry(rest, d - p));
    res
}

fn parse_domains_chars(s: &[char]) -> (res: Vec<DomainInfo>)
    ensures
        domain_views(res@) == domains_spec(s@),
{
    proof {
        reveal_strlit("data-element-id=\"");
        reveal_strlit("data-domain=\"");
    }
    let n = s.len();
    let key = to_chars("data-element-id=\"");
    let dkey = to_chars("data-domain=\"");
    let mut out: Vec<DomainInfo> = Vec::new();
    let mut p: usize = 0;
    assert(s@.skip(0) =~= s@);
    assert(domain_views(out@) + domains_spec(s@) =~= domains_spec(s@));
    loop
        invariant
            p <= n == s@.len(),
            key@ == "data-element-id=\""@,
            dkey@ == "data-domain=\""@,
            domains_spec(s@) == domain_views(out@) + domains_spec(s@.skip(p as int)),
        ensures
            domains_spec(s@) == domain_views(out@),
        decreases n - p,
    {
        let ghost rest0 = s@.skip(p as int);
        proof {
            reveal_strlit("data-element-id=\"");
        }
        match find_from(s, key.as_slice(), p) {
            None => {
                assert(domain_views(out@) + domains_spec(rest0) =~= domain_views(out@));
                break;
            },
            Some(k) => {
                assert(key@.len() == 17);
                let q = k + key.len();
                let ghost rest = s@.skip(q as int);
                assert(rest0.skip(k - p + 17) =~= rest);
                match find_from(s, dkey.as_slice(), q) {
                    None => {},
                    Some(d) => {
                        let ghost before = domain_views(out@);
                        let entry = domain_entry_at(s, q, d);
                        let ghost ev = entry@;
                        out.push(entry);
                        assert(domain_views(out@) =~= before.push(ev));
                        assert(before + domains_spec(rest0) =~= domain_views(out@) + domains_spec(
                            rest,
                        ));
                    },
                }
                p = q;
            },
        }
    }
    out
}

/// The domains listed in the domain list page `html` (see
/// `domains_spec`).
pub fn parse_domains(html: &str) -> (res: Vec<DomainInfo>)
    ensures
        domain_views(res@) == domains_spec(html@),
{
    let s = to_chars(html);
    parse_domains_chars(s.as_slice())
}

/// The record that one row of the DNS Management table holds: none where
/// the row has no host input or both host and address are blank; else the
/// host and address with entities replaced, the selected type (`A` where
/// none is selected), a TTL of 3600 and the priority where it reads as a
/// `u16`.
pub open spec fn row_record(row: Seq<char>, domain: Seq<char>) -> Option<RecordView> {
    if !contains(row, "dnsrecordhost[]"@) {
        None
    } else {
        let host = input_value_spec(row, "dnsrecordhost[]"@);
        let address = input_value_spec(row, "dnsrecordaddress[]"@);
        if trim(host).len() == 0 && trim(address).len() == 0 {
            None
        } else {
            Some(
                RecordView {
                    domain: domain,
                    name: html_unescape_spec(host),
                    record_type: match selected_option_spec(row) {
                        Some(t) => t,
                        None => "A"@,
                    },
                    value: html_unescape_spec(address),
                    ttl: 3600,
                    priority: match parse_unsigned(input_value_spec(row, "dnsrecordpriority[]"@), 0xffff) {
                        Some(v) => Some(v as u16),
                        None => None,
                    },
                },
            )
        }
    }
}

/// The records of the table rows `rows`, in order.
pub open spec fn rows_records(rows: Seq<Seq<char>>, domain: Seq<char>) -> Seq<RecordView>
    decreases rows.len(),
{
    if rows.len() == 0 {
        Seq::empty()
    } else {
        let prev = rows_records(rows.drop_last(), domain);
        match row_record(rows.last(), domain) {
            Some(r) => prev.push(r),
            None => prev,
        }
    }
}

/// The rows of the first table body of `html`: the pieces after each `<tr`.
pub open spec fn table_rows(html: Seq<char>) -> Seq<Seq<char>> {
    let table = match between(html, "<tbody>"@, "</tbody>"@) {
        Some(t) => t,
        None => Seq::empty(),
    };
    split(table, "<tr"@).skip(1)
}

/// The DNS Management form in `html`: present where the page holds both the
/// token input and the domain id input; its records come from the table.
pub open spec fn dns_form_spec(html: Seq<char>, domain: Seq<char>) -> Option<FormView> {
    match between(html, "name=\"token\" value=\""@, "\""@) {
        None => None,
        Some(token) => match between(html, "name=\"domainid\" value=\""@, "\""@) {
            None => None,
            Some(domain_id) => Some(
                FormView { token, domain_id, records: rows_records(table_rows(html), domain) },
            ),
        },
    }
}

fn row_record_exec(row: &[char], domain: &str) -> (r: Option<DnsRecord>)
    ensures
        match r {
            Some(rec) => row_record(row@, domain@) == Some(rec@),
            None => row_record(row@, domain@) is None,
        },
{
    proof {
        reveal_strlit("A");
    }
    let host_name = to_chars("dnsrecordhost[]");
    if !contains_chars(row, host_name.as_slice()) {
        return None;
    }
    let host = input_value_chars(row, host_name.as_slice());
    let address = input_value_chars(row, to_chars("dnsrecordaddress[]").as_slice());
    let host_chars = to_chars(host.as_str());
    let address_chars = to_chars(address.as_str());
    let (ha, hb) = trim_bounds(host_chars.as_slice());
    let (aa, ab) = trim_bounds(address_chars.as_slice());
    if ha == hb && aa == ab {
        return None;
    }
    let record_type = match selected_option_chars(row) {
        Some(t) => t,
        None => String::from_str("A"),
    };
    let priority_raw = input_value_chars(row, to_chars("dnsrecordpriority[]").as_slice());
    let priority = parse_u16(priority_raw.as_str());
    let rec = DnsRecord {
        domain: String::from_str(domain),
        name: html_unescape(host.as_str()),
        record_type,
        value: html_unescape(address.as_str()),
        ttl: 3600,
        priority,
    };
    assert(rec@ =~= row_record(row@, domain@)->0);
    Some(rec)
}

/// The text between the first `start` and the next `end` in `s`, or the
/// empty text.
fn between_or_empty(s: &[char], start: &str, end: &str) -> (res: Vec<char>)
    ensures
        res@ == match between(s@, start@, end@) {
            Some(t) => t,
            None => Seq::empty(),
        },
{
    let a = to_chars(start);
    let b = to_chars(end);
    assert(s@.skip(0) =~= s@);
    match between_from(s, a.as_slice(), b.as_slice(), 0) {
        Some((lo, hi)) => copy_range(s, lo, hi),
        None => Vec::new(),
    }
}

/// The rows of the first table body of `s`, each after its `<tr`.
fn table_rows_exec(s: &[char]) -> (res: Vec<Vec<char>>)
    ensures
        char_vecs(res@) == split(
            match between(s@, "<tbody>"@, "</tbody>"@) {
                Some(t) => t,
                None => Seq::empty(),
            },
            "<tr"@,
        ),
{
    proof {
        reveal_strlit("<tr");
    }
    let table = between_or_empty(s, "<tbody>", "</tbody>");
    split_chars(table.as_slice(), to_chars("<tr").as_slice())
}

/// The DNS Management form in the page `html` (see `dns_form_spec`).
pub fn parse_dns_form(html: &str, domain: &str) -> (r: Option<DnsForm>)
    ensures
        match r {
            Some(f) => dns_form_spec(html@, domain@) == Some(f@),
            None => dns_form_spec(html@, domain@) is None,
        },
{
    let s = to_chars(html);
    let token_key = to_chars("name=\"token\" value=\"");
    let id_key = to_chars("name=\"domainid\" value=\"");
    let quote = to_chars("\"");
    assert(s@.skip(0) =~= s@);
    let token = match between_from(s.as_slice(), token_key.as_slice(), quote.as_slice(), 0) {
        Some((a, b)) => string_of_range(s.as_slice(), a, b),
        None => {
            return None;
        },
    };
    let domain_id = match between_from(s.as_slice(), id_key.as_slice(), quote.as_slice(), 0) {
        Some((a, b)) => string_of_range(s.as_slice(), a, b),
        None => {
            return None;
        },
    };
    let parts = table_rows_exec(s.as_slice());
    let ghost rows = char_vecs(parts@).skip(1);
    assert(rows == table_rows(s@));
    proof {
        lemma_split_nonempty(
            match between(s@, "<tbody>"@, "</tbody>"@) {
                Some(t) => t,
                None => Seq::empty(),
            },
            "<tr"@,
        );
    }
    let mut records: Vec<DnsRecord> = Vec::new();
    let mut i: usize = 1;
    assert(rows.take(0) =~= Seq::<Seq<char>>::empty());
    while i < parts.len()
        invariant
            1 <= i <= parts@.len(),
            rows == char_vecs(parts@).skip(1),
            record_views(records@) == rows_records(rows.take(i - 1), domain@),
        decreases parts@.len() - i,
    {
        let ghost before = record_views(records@);
        let ghost row = parts@[i as int]@;
        assert(rows.take(i as int).drop_last() =~= rows.take(i - 1));
        assert(rows.take(i as int).last() == row);
        match row_record_exec(parts[i].as_slice(), domain) {
            Some(rec) => {
                let ghost rv = rec@;
                records.push(rec);
                assert(record_views(records@) =~= before.push(rv));
            },
            None => {},
        }
        i = i + 1;
    }
    assert(rows.take(parts@.len() - 1) =~= rows);
    Some(DnsForm { token, domain_id, records })
}

/// The visible text of cell `k` of `cells`, or the empty text.
pub open spec fn cell_text(cells: Seq<Seq<char>>, k: int) -> Seq<char> {
    if k < cells.len() {
        clean_html_spec(cells[k])
    } else {
        Seq::empty()
    }
}

/// The invoice that one row of the invoice table holds, as a JSON object
/// with its id, invoice date, due date, total, status and path; none where
/// the row has no `invoice?id=` link.
pub open spec fn row_invoice(row: Seq<char>) -> Option<Seq<char>> {
    if !contains(row, "invoice?id="@) {
        None
    } else {
        let id = match between(row, "invoice?id="@, "'"@) {
            Some(v) => v,
            None => Seq::empty(),
        };
        let cells = all_between(row, "<td"@, "</td>"@);
        Some(
            "{\"id\":\""@ + json_escape_spec(id) + "\",\"invoice_date\":\""@ + json_escape_spec(
                cell_text(cells, 1),
            ) + "\",\"due_date\":\""@ + json_escape_spec(cell_text(cells, 2)) + "\",\"total\":\""@
                + json_escape_spec(cell_text(cells, 3)) + "\",\"status\":\""@ + json_escape_spec(
                cell_text(cells, 4),
            ) + "\",\"path\":\"/invoice?id="@ + json_escape_spec(id) + "\"}"@,
        )
    }
}

/// The invoice objects of the table rows `rows`, in order.
pub open spec fn rows_invoices(rows: Seq<Seq<char>>) -> Seq<Seq<char>>
    decreases rows.len(),
{
    if rows.len() == 0 {
        Seq::empty()
    } else {
        let prev = rows_invoices(rows.drop_last());
        match row_invoice(rows.last()) {
            Some(r) => prev.push(r),
            None => prev,
        }
    }
}

/// The invoices of the invoice page `html`, as JSON objects separated by
/// commas.
pub open spec fn invoices_json_spec(html: Seq<char>) -> Seq<char> {
    join_with(rows_invoices(table_rows(html)), ","@)
}

fn cell_text_exec(cells: &Vec<String>, k: usize) -> (res: String)
    ensures
        res@ == cell_text(texts(cells@), k as int),
{
    if k < cells.len() {
        clean_html(cells[k].as_str())
    } else {
        String::new()
    }
}

fn row_invoice_exec(row: &[char]) -> (r: Option<String>)
    ensures
        match r {
            Some(v) => row_invoice(row@) == Some(v@),
            None => row_invoice(row@) is None,
        },
{
    proof {
        reveal_strlit("<td");
    }
    if !contains_chars(row, to_chars("invoice?id=").as_slice()) {
        return None;
    }
    let id_chars = between_or_empty(row, "invoice?id=", "'");
    let id = json_escape(string_of(id_chars.as_slice()).as_str());
    let cells = all_between_chars(row, to_chars("<td").as_slice(), to_chars("</td>").as_slice());
    let mut out = String::new();
    out.append("{\"id\":\"");
    out.append(id.as_str());
    out.append("\",\"invoice_date\":\"");
    out.append(json_escape(cell_text_exec(&cells, 1).as_str()).as_str());
    out.append("\",\"due_date\":\"");
    out.append(json_escape(cell_text_exec(&cells, 2).as_str()).as_str());
    out.append("\",\"total\":\"");
    out.append(json_escape(cell_text_exec(&cells, 3).as_str()).as_str());
    out.append("\",\"status\":\"");
    out.append(json_escape(cell_text_exec(&cells, 4).as_str()).as_str());
    out.append("\",\"path\":\"/invoice?id=");
    out.append(id.as_str());
    out.append("\"}");
    Some(out)
}

/// The invoices of the invoice page `html`, as JSON objects separated by
/// commas (see `invoices_json_spec`).
pub fn parse_invoices_json(html: &str) -> (res: String)
    ensures
        res@ == invoices_json_spec(html@),
{
    let s = to_chars(html);
    let parts = table_rows_exec(s.as_slice());
    let ghost rows = char_vecs(parts@).skip(1);
    assert(rows == table_rows(s@));
    proof {
        lemma_split_nonempty(
            match between(s@, "<tbody>"@, "</tbody>"@) {
                Some(t) => t,
                None => Seq::empty(),
            },
            "<tr"@,
        );
    }
    let mut items: Vec<String> = Vec::new();
    let mut i: usize = 1;
    assert(rows.take(0) =~= Seq::<Seq<char>>::empty());
    while i < parts.len()
        invariant
            1 <= i <= parts@.len(),
            rows == char_vecs(parts@).skip(1),
            texts(items@) == rows_invoices(rows.take(i - 1)),
        decreases parts@.len() - i,
    {
        let ghost before = texts(items@);
        let ghost row = parts@[i as int]@;
        assert(rows.take(i as int).drop_last() =~= rows.take(i - 1));
        assert(rows.take(i as int).last() == row);
        match row_invoice_exec(parts[i].as_slice()) {
            Some(v) => {
                let ghost vv = v@;
                items.push(v);
                assert(texts(items@) =~= before.push(vv));
            },
            None => {},
        }
        i = i + 1;
    }
    assert(rows.take(parts@.len() - 1) =~= rows);
    join_strings(&items, ",")
}

/// A field name in JSON: quoted and escaped.
pub open spec fn quoted_json(n: Seq<char>) -> Seq<char> {
    "\""@ + json_escape_spec(n) + "\""@
}

/// One form of a page as a JSON object: its method (`get` where none is
/// given), its action with entities replaced, and the names of its fields.
/// `form` is the text after `<form`; the attributes end at the first `>`,
/// the body at the first `</form>`.
pub open spec fn form_json(form: Seq<char>) -> Seq<char> {
    let attrs = before_first(form, ">"@);
    let body = before_first(form, "</form>"@);
    let method = match attr_value_spec(attrs, "method"@) {
        Some(m) => m,
        None => "get"@,
    };
    let action = match attr_value_spec(attrs, "action"@) {
        Some(a) => a,
        None => Seq::empty(),
    };
    let names = join_with(
        all_between(body, "name=\""@, "\""@).map_values(|n: Seq<char>| quoted_json(n)),
        ","@,
    );
    "{\"method\":\""@ + json_escape_spec(method) + "\",\"action\":\""@ + json_escape_spec(
        html_unescape_spec(action),
    ) + "\",\"field_names\":["@ + names + "]}"@
}

/// The forms of the page `html` as JSON objects separated by commas.
pub open spec fn forms_json_spec(html: Seq<char>) -> Seq<char> {
    join_with(split(html, "<form"@).skip(1).map_values(|f: Seq<char>| form_json(f)), ","@)
}

fn form_json_exec(form: &[char]) -> (res: String)
    ensures
        res@ == form_json(form@),
{
    proof {
        reveal_strlit("get");
        reveal_strlit("name=\"");
    }
    let attrs = before_first_chars(form, to_chars(">").as_slice());
    let body = before_first_chars(form, to_chars("</form>").as_slice());
    let method = match attr_value_chars(attrs.as_slice(), to_chars("method").as_slice()) {
        Some(m) => m,
        None => String::from_str("get"),
    };
    let action = match attr_value_chars(attrs.as_slice(), to_chars("action").as_slice()) {
        Some(a) => a,
        None => String::new(),
    };
    let found = all_between_chars(body.as_slice(), to_chars("name=\"").as_slice(), to_chars("\"").as_slice());
    let mut quoted: Vec<String> = Vec::new();
    let mut i: usize = 0;
    while i < found.len()
        invariant
            i <= found@.len(),
            texts(quoted@) == texts(found@).take(i as int).map_values(|n: Seq<char>| quoted_json(n)),
        decreases found@.len() - i,
    {
        let mut q = String::from_str("\"");
        q.append(json_escape(found[i].as_str()).as_str());
        q.append("\"");
        let ghost before = texts(quoted@);
        let ghost qv = q@;
        quoted.push(q);
        assert(texts(quoted@) =~= before.push(qv));
        assert(texts(found@).take(i + 1).map_values(|n: Seq<char>| quoted_json(n)) =~= texts(
            found@,
        ).take(i as int).map_values(|n: Seq<char>| quoted_json(n)).push(quoted_json(found@[i as int]@)));
        i = i + 1;
    }
    assert(texts(found@).take(found@.len() as int) =~= texts(found@));
    let names = join_strings(&quoted, ",");
    let mut out = String::new();
    out.append("{\"method\":\"");
    out.append(json_escape(method.as_str()).as_str());
    out.append("\",\"action\":\"");
    out.append(json_escape(html_unescape(action.as_str()).as_str()).as_str());
    out.append("\",\"field_names\":[");
    out.append(names.as_str());
    out.append("]}");
    out
}

/// The forms of the page `html` as JSON objects separated by commas (see
/// `forms_json_spec`).
pub fn extract_forms_json(html: &str) -> (res: String)
    ensures
        res@ == forms_json_spec(html@),
{
    proof {
        reveal_strlit("<form");
    }
    let s = to_chars(html);
    let parts = split_chars(s.as_slice(), to_chars("<form").as_slice());
    let ghost pieces = char_vecs(parts@).skip(1);
    proof {
        lemma_split_nonempty(s@, "<form"@);
    }
    let mut items: Vec<String> = Vec::new();
    let mut i: usize = 1;
    assert(pieces.take(0).map_values(|f: Seq<char>| form_json(f)) =~= Seq::<Seq<char>>::empty());
    while i < parts.len()
        invariant
            1 <= i <= parts@.len(),
            pieces == char_vecs(parts@).skip(1),
            texts(items@) == pieces.take(i - 1).map_values(|f: Seq<char>| form_json(f)),
        decreases parts@.len() - i,
    {
        let ghost before = texts(items@);
        let v = form_json_exec(parts[i].as_slice());
        let ghost vv = v@;
        items.push(v);
        assert(texts(items@) =~= before.push(vv));
        assert(pieces.take(i as int).map_values(|f: Seq<char>| form_json(f)) =~= pieces.take(
            i - 1,
        ).map_values(|f: Seq<char>| form_json(f)).push(form_json(parts@[i as int]@)));
        i = i + 1;
    }
    assert(pieces.take(parts@.len() - 1) =~= pieces);
    join_strings(&items, ",")
}

/// A quoted piece of a HAR file that looks like a DomaiNesia DNS endpoint:
/// it starts with `http`, and in lower case it names `domainesia` and one
/// of `dns`, `record`, `zone` or `domain`.
pub open spec fn is_endpoint_candidate(part: Seq<char>) -> bool {
    let lower = ascii_lowercase(part);
    &&& starts_with(part, "http"@)
    &&& contains(lower, "domainesia"@)
    &&& (contains(lower, "dns"@) || contains(lower, "record"@) || contains(lower, "zone"@)
        || contains(lower, "domain"@))
}

/// A candidate with its JSON-escaped slashes (`\/`) made plain.
pub open spec fn unescape_slashes(part: Seq<char>) -> Seq<char> {
    replace_all(part, "\\/"@, "/"@)
}

/// The distinct candidates among `parts`, in order of first appearance.
pub open spec fn collect_candidates(parts: Seq<Seq<char>>) -> Seq<Seq<char>>
    decreases parts.len(),
{
    if parts.len() == 0 {
        Seq::empty()
    } else {
        let prev = collect_candidates(parts.drop_last());
        let p = parts.last();
        if is_endpoint_candidate(p) && !prev.contains(unescape_slashes(p)) {
            prev.push(unescape_slashes(p))
        } else {
            prev
        }
    }
}

/// The endpoint candidates of the text `text`: the distinct candidates
/// among its `"`-separated pieces, at most the first 30.
pub open spec fn endpoint_candidates_spec(text: Seq<char>) -> Seq<Seq<char>> {
    let c = collect_candidates(split(text, "\""@));
    if c.len() > 30 {
        c.take(30)
    } else {
        c
    }
}

/// No text occurs twice in `items`.
pub open spec fn all_distinct(items: Seq<Seq<char>>) -> bool {
    forall|i: int, j: int| 0 <= i < j < items.len() ==> items[i] != items[j]
}

/// The collected candidates never repeat.
pub proof fn lemma_collect_distinct(parts: Seq<Seq<char>>)
    ensures
        all_distinct(collect_candidates(parts)),
    decreases parts.len(),
{
    if parts.len() > 0 {
        lemma_collect_distinct(parts.drop_last());
        let prev = collect_candidates(parts.drop_last());
        let p = parts.last();
        if is_endpoint_candidate(p) && !prev.contains(unescape_slashes(p)) {
            let c = prev.push(unescape_slashes(p));
            assert forall|i: int, j: int| 0 <= i < j < c.len() implies c[i] != c[j] by {
                if j == prev.len() {
                    assert(prev[i] == c[i]);
                }
            }
        }
    }
}

fn is_candidate_exec(part: &[char]) -> (r: bool)
    ensures
        r == is_endpoint_candidate(part@),
{
    if !starts_with_chars(part, to_chars("http").as_slice()) {
        return false;
    }
    let lower = ascii_lowercase_chars(part);
    let l = lower.as_slice();
    contains_chars(l, to_chars("domainesia").as_slice()) && (contains_chars(
        l,
        to_chars("dns").as_slice(),
    ) || contains_chars(l, to_chars("record").as_slice()) || contains_chars(
        l,
        to_chars("zone").as_slice(),
    ) || contains_chars(l, to_chars("domain").as_slice()))
}

fn contains_text(items: &Vec<Vec<char>>, x: &[char]) -> (r: bool)
    ensures
        r == char_vecs(items@).contains(x@),
{
    let mut i: usize = 0;
    while i < items.len()
        invariant
            i <= items@.len(),
            forall|j: int| 0 <= j < i ==> items@[j]@ != x@,
        decreases items@.len() - i,
    {
        if chars_eq(items[i].as_slice(), x) {
            assert(char_vecs(items@)[i as int] == x@);
            return true;
        }
        i = i + 1;
    }
    assert forall|j: int| 0 <= j < char_vecs(items@).len() implies char_vecs(items@)[j] != x@ by {
        assert(char_vecs(items@)[j] == items@[j]@);
    }
    false
}

/// The DomaiNesia endpoint candidates in the text of a HAR file (see
/// `endpoint_candidates_spec`): never more than 30, never the same twice.
pub fn extract_endpoint_candidates(text: &str) -> (res: Vec<String>)
    ensures
        texts(res@) == endpoint_candidates_spec(text@),
        res@.len() <= 30,
        all_distinct(texts(res@)),
{
    proof {
        reveal_strlit("\"");
        reveal_strlit("\\/");
    }
    let s = to_chars(text);
    let parts = split_chars(s.as_slice(), to_chars("\"").as_slice());
    let ghost ps = char_vecs(parts@);
    let slash = to_chars("\\/");
    let plain = to_chars("/");
    let mut found: Vec<Vec<char>> = Vec::new();
    let mut i: usize = 0;
    assert(ps.take(0) =~= Seq::<Seq<char>>::empty());
    while i < parts.len()
        invariant
            i <= parts@.len(),
            ps == char_vecs(parts@),
            slash@ == "\\/"@,
            plain@ == "/"@,
            char_vecs(found@) == collect_candidates(ps.take(i as int)),
        decreases parts@.len() - i,
    {
        proof {
            reveal_strlit("\\/");
        }
        let part = parts[i].as_slice();
        assert(ps.take(i + 1).drop_last() =~= ps.take(i as int));
        assert(ps.take(i + 1).last() == part@);
        if is_candidate_exec(part) {
            let clean = replace_chars(part, slash.as_slice(), plain.as_slice());
            if !contains_text(&found, clean.as_slice()) {
                let ghost before = char_vecs(found@);
                let ghost cv = clean@;
                found.push(clean);
                assert(char_vecs(found@) =~= before.push(cv));
            }
        }
        i = i + 1;
    }
    assert(ps.take(parts@.len() as int) =~= ps);
    proof {
        lemma_collect_distinct(ps);
    }
    let mut res: Vec<String> = Vec::new();
    let mut k: usize = 0;
    let limit = if found.len() > 30 {
        30
    } else {
        found.len()
    };
    while k < limit
        invariant
            k <= limit <= found@.len(),
            limit <= 30,
            texts(res@) == char_vecs(found@).take(k as int),
        decreases limit - k,
    {
        let ghost before = texts(res@);
        let t = string_of(found[k].as_slice());
        let ghost tv = t@;
        res.push(t);
        assert(texts(res@) =~= before.push(tv));
        assert(char_vecs(found@).take(k + 1) =~= char_vecs(found@).take(k as int).push(
            found@[k as int]@,
        ));
        k = k + 1;
    }
    proof {
        let c = char_vecs(found@);
        if c.len() <= 30 {
            assert(c.take(c.len() as int) =~= c);
        }
        assert forall|a: int, b: int| 0 <= a < b < texts(res@).len() implies texts(res@)[a] != texts(
            res@,
        )[b] by {
            assert(texts(res@)[a] == c[a]);
            assert(texts(res@)[b] == c[b]);
        }
    }
    res
}

/// A row of the DNS table is a record exactly when it holds the host input
/// and its host or its address is not blank (a record shown with an empty
/// host, such as the domain's own A record, is kept); the record's name and
/// value are the unescaped host and address, its domain the form's domain.
pub proof fn law_dns_row_is_record(row: Seq<char>, domain: Seq<char>)
    ensures
        ({
            let host = input_value_spec(row, "dnsrecordhost[]"@);
            let address = input_value_spec(row, "dnsrecordaddress[]"@);
            &&& (row_record(row, domain) is Some <==> (contains(row, "dnsrecordhost[]"@) && !(
                trim(host).len() == 0 && trim(address).len() == 0)))
            &&& (row_record(row, domain) matches Some(r) ==> {
                &&& r.name == html_unescape_spec(host)
                &&& r.value == html_unescape_spec(address)
                &&& r.domain == domain
                &&& r.ttl == 3600
            })
        }),
{
}

/// The records of a table are those of its rows in order: the records of
/// the rows `a` then `b` are those of `a` followed by those of `b`.
pub proof fn law_dns_rows_concat(a: Seq<Seq<char>>, b: Seq<Seq<char>>, domain: Seq<char>)
    ensures
        rows_records(a + b, domain) == rows_records(a, domain) + rows_records(b, domain),
    decreases b.len(),
{
    if b.len() == 0 {
        assert(a + b =~= a);
        assert(rows_records(a, domain) + rows_records(b, domain) =~= rows_records(a, domain));
    } else {
        law_dns_rows_concat(a, b.drop_last(), domain);
        assert((a + b).drop_last() =~= a + b.drop_last());
        assert((a + b).last() == b.last());
        match row_record(b.last(), domain) {
            Some(r) => {
                assert(rows_records(a + b, domain) =~= rows_records(a, domain) + rows_records(
                    b,
                    domain,
                ));
            },
            None => {},
        }
    }
}

/// A row yields an invoice exactly when it holds an invoice link.
pub open spec fn is_invoice_row(row: Seq<char>) -> bool {
    contains(row, "invoice?id="@)
}

/// Every row with an invoice link gives one invoice object, in the order of
/// the rows, and no other row gives one: the invoices are those of the
/// invoice rows, and the invoices of the rows `a` then `b` are those of `a`
/// followed by those of `b`.
pub proof fn law_invoice_rows(rows: Seq<Seq<char>>, a: Seq<Seq<char>>, b: Seq<Seq<char>>)
    ensures
        forall|r: Seq<char>| #[trigger] row_invoice(r) is Some <==> is_invoice_row(r),
        rows_invoices(rows) == rows.filter(|r: Seq<char>| is_invoice_row(r)).map_values(
            |r: Seq<char>| row_invoice(r)->0,
        ),
        rows_invoices(rows).len() == rows.filter(|r: Seq<char>| is_invoice_row(r)).len(),
        rows_invoices(a + b) == rows_invoices(a) + rows_invoices(b),
{
    lemma_invoices_filter(rows);
    lemma_invoices_concat(a, b);
}

proof fn lemma_invoices_filter(rows: Seq<Seq<char>>)
    ensures
        rows_invoices(rows) == rows.filter(|r: Seq<char>| is_invoice_row(r)).map_values(
            |r: Seq<char>| row_invoice(r)->0,
        ),
    decreases rows.len(),
{
    reveal(Seq::filter);
    let pred = |r: Seq<char>| is_invoice_row(r);
    if rows.len() == 0 {
        assert(rows.filter(pred) =~= Seq::<Seq<char>>::empty());
        assert(rows.filter(pred).map_values(|r: Seq<char>| row_invoice(r)->0) =~= Seq::<
            Seq<char>,
        >::empty());
    } else {
        lemma_invoices_filter(rows.drop_last());
        let f = rows.drop_last().filter(pred);
        if is_invoice_row(rows.last()) {
            assert(rows.filter(pred) == f.push(rows.last()));
            assert(f.push(rows.last()).map_values(|r: Seq<char>| row_invoice(r)->0) =~= f.map_values(
                |r: Seq<char>| row_invoice(r)->0,
            ).push(row_invoice(rows.last())->0));
        } else {
            assert(rows.filter(pred) == f);
        }
    }
}

proof fn lemma_invoices_concat(a: Seq<Seq<char>>, b: Seq<Seq<char>>)
    ensures
        rows_invoices(a + b) == rows_invoices(a) + rows_invoices(b),
    decreases b.len(),
{
    if b.len() == 0 {
        assert(a + b =~= a);
        assert(rows_invoices(a) + rows_invoices(b) =~= rows_invoices(a));
    } else {
        lemma_invoices_concat(a, b.drop_last());
        assert((a + b).drop_last() =~= a + b.drop_last());
        assert((a + b).last() == b.last());
        match row_invoice(b.last()) {
            Some(r) => {
                assert(rows_invoices(a + b) =~= rows_invoices(a) + rows_invoices(b));
            },
            None => {},
        }
    }
}

} // verus!
