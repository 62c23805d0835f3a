//! Command-line arguments and the configuration file.
use vstd::prelude::*;
use crate::text::{
    char_vecs, copy_range, find, find_chars, join_strings, join_with, split, split_chars,
    starts_with, starts_with_chars, str_eq, string_of, texts, to_chars, trim, trim_bounds,
};

verus! {

/// The command line after the global `--json` switch was taken out.
pub struct Opts {
    pub json: bool,
    pub args: Vec<String>,
}

/// `args` without any `--json`, in order.
pub open spec fn without_json(args: Seq<Seq<char>>) -> Seq<Seq<char>>
    decreases args.len(),
{
    if args.len() == 0 {
        Seq::empty()
    } else if args.last() == "--json"@ {
        without_json(args.drop_last())
    } else {
        without_json(args.drop_last()).push(args.last())
    }
}

/// Splits the raw arguments into the `--json` switch (set where any
/// argument is `--json`) and the other arguments, in order.
pub fn parse_opts(raw: Vec<String>) -> (res: Opts)
    ensures
        res.json == texts(raw@).contains("--json"@),
        texts(res.args@) == without_json(texts(raw@)),
{
    let mut json = false;
    let mut args: Vec<String> = Vec::new();
    let mut i: usize = 0;
    assert(texts(raw@).take(0) =~= Seq::<Seq<char>>::empty());
    while i < raw.len()
        invariant
            i <= raw@.len(),
            json == texts(raw@).take(i as int).contains("--json"@),
            texts(args@) == without_json(texts(raw@).take(i as int)),
        decreases raw@.len() - i,
    {
        let ghost prefix = texts(raw@).take(i as int);
        let ghost next = texts(raw@).take(i + 1);
        assert(next.drop_last() =~= prefix);
        assert(next.last() == raw@[i as int]@);
        assert(next =~= prefix.push(raw@[i as int]@));
        if str_eq(raw[i].as_str(), "--json") {
            json = true;
            assert(next.contains("--json"@)) by {
                assert(next[i as int] == "--json"@);
            }
        } else {
            let ghost before = texts(args@);
            let a = raw[i].clone();
            args.push(a);
            assert(texts(args@) =~= before.push(raw@[i as int]@));
            assert(next.contains("--json"@) == prefix.contains("--json"@)) by {
                if next.contains("--json"@) {
                    let k = choose|k: int| 0 <= k < next.len() && next[k] == "--json"@;
                    if k < i {
                        assert(prefix[k] == "--json"@);
                    }
                }
                if prefix.contains("--json"@) {
                    let k = choose|k: int| 0 <= k < prefix.len() && prefix[k] == "--json"@;
                    assert(next[k] == "--json"@);
                }
            }
        }
        if str_eq(raw[i].as_str(), "--json") {
            assert(next.contains("--json"@));
        }
        i = i + 1;
    }
    assert(texts(raw@).take(raw@.len() as int) =~= texts(raw@));
    Opts { json, args }
}

/// Whether `flag` is among `args`.
pub fn has_flag(args: &[String], flag: &str) -> (r: bool)
    ensures
        r == texts(args@).contains(flag@),
{
    let mut i: usize = 0;
    while i < args.len()
        invariant
            i <= args@.len(),
            forall|j: int| 0 <= j < i ==> args@[j]@ != flag@,
        decreases args@.len() - i,
    {
        if str_eq(args[i].as_str(), flag) {
            assert(texts(args@)[i as int] == flag@);
            return true;
        }
        i = i + 1;
    }
    assert forall|j: int| 0 <= j < texts(args@).len() implies texts(args@)[j] != flag@ by {
        assert(texts(args@)[j] == args@[j]@);
    }
    false
}

/// The argument that follows the first `flag` at or after `i` that has an
/// argument after it.
pub open spec fn flag_value_from(args: Seq<Seq<char>>, flag: Seq<char>, i: int) -> Option<
    Seq<char>,
>
    decreases args.len() - i,
{
    if i < 0 || i + 1 >= args.len() {
        None
    } else if args[i] == flag {
        Some(args[i + 1])
    } else {
        flag_value_from(args, flag, i + 1)
    }
}

/// The argument that follows the first `flag` that has an argument after
/// it (`windows(2)` then `find`).
pub open spec fn flag_value(args: Seq<Seq<char>>, flag: Seq<char>) -> Option<Seq<char>> {
    flag_value_from(args, flag, 0)
}

/// The argument after `flag` in `args` (see `flag_value`).
pub fn value_after<'a>(args: &'a [String], flag: &str) -> (r: Option<&'a str>)
    ensures
        match r {
            Some(v) => flag_value(texts(args@), flag@) == Some(v@),
            None => flag_value(texts(args@), flag@) is None,
        },
{
    let ghost a = texts(args@);
    let mut i: usize = 0;
    while i < args.len() && args.len() - i > 1
        invariant
            i <= args@.len(),
            a == texts(args@),
            flag_value(a, flag@) == flag_value_from(a, flag@, i as int),
        decreases args@.len() - i,
    {
        if str_eq(args[i].as_str(), flag) {
            return Some(args[i + 1].as_str());
        }
        i = i + 1;
    }
    None
}

/// The command's name for messages: its first two arguments joined by a
/// space.
pub open spec fn command_name_spec(args: Seq<Seq<char>>) -> Seq<char> {
    join_with(
        if args.len() > 2 {
            args.take(2)
        } else {
            args
        },
        " "@,
    )
}

/// The first two arguments joined by a space.
pub fn current_command_name(args: &[String]) -> (res: String)
    ensures
        res@ == command_name_spec(texts(args@)),
{
    let mut first: Vec<String> = Vec::new();
    let mut i: usize = 0;
    while i < args.len() && i < 2
        invariant
            i <= 2,
            i <= args@.len(),
            texts(first@) == texts(args@).take(i as int),
        decreases 2 - i,
    {
        let ghost before = texts(first@);
        let c = args[i].clone();
        assert(c@ == args@[i as int]@);
        first.push(c);
        assert(texts(first@) =~= before.push(args@[i as int]@));
        assert(texts(first@) =~= texts(args@).take(i + 1));
        i = i + 1;
    }
    if args.len() <= 2 {
        assert(texts(args@).take(args@.len() as int) =~= texts(args@));
    }
    join_strings(&first, " ")
}

/// The base URL that every request goes to.
pub open spec fn base_url() -> Seq<char> {
    "https://my.domainesia.com"@
}

/// The characters that may follow the host of a URL: a path, a query or a
/// fragment starts there.
pub open spec fn is_url_delimiter(c: char) -> bool {
    c == '/' || c == '?' || c == '#'
}

/// `u` is a URL on exactly the host of `origin` (such as
/// `https://my.domainesia.com`): the origin itself, or the origin followed
/// by a path, a query or a fragment, and not a longer host name.
pub open spec fn at_host(u: Seq<char>, origin: Seq<char>) -> bool {
    &&& starts_with(u, origin)
    &&& (u.len() == origin.len() || is_url_delimiter(u[origin.len() as int]))
}

/// Whether `u` is a URL on exactly the host of `origin` (see `at_host`).
pub fn is_at_host(u: &[char], origin: &[char]) -> (r: bool)
    ensures
        r == at_host(u@, origin@),
{
    if !starts_with_chars(u, origin) {
        return false;
    }
    if u.len() == origin.len() {
        return true;
    }
    let c = u[origin.len()];
    c == '/' || c == '?' || c == '#'
}

/// The absolute URL for a path or URL of my.domainesia.com: a URL on
/// exactly that host stays, a path that starts with `/` is put after the
/// base URL, anything else is refused.
pub open spec fn absolute_url_spec(p: Seq<char>) -> Result<Seq<char>, Seq<char>> {
    if at_host(p, base_url()) {
        Ok(p)
    } else if starts_with(p, "/"@) {
        Ok(base_url() + p)
    } else {
        Err("URL/path must target my.domainesia.com"@)
    }
}

/// The absolute URL for `path_or_url` (see `absolute_url_spec`).
pub fn absolute_domainesia_url(path_or_url: &str) -> (r: Result<String, String>)
    ensures
        match r {
            Ok(u) => absolute_url_spec(path_or_url@) == Ok::<Seq<char>, Seq<char>>(u@),
            Err(e) => absolute_url_spec(path_or_url@) == Err::<Seq<char>, Seq<char>>(e@),
        },
{
    let p = to_chars(path_or_url);
    if is_at_host(p.as_slice(), to_chars("https://my.domainesia.com").as_slice()) {
        Ok(String::from_str(path_or_url))
    } else if starts_with_chars(p.as_slice(), to_chars("/").as_slice()) {
        let mut u = String::from_str("https://my.domainesia.com");
        u.append(path_or_url);
        Ok(u)
    } else {
        Err(String::from_str("URL/path must target my.domainesia.com"))
    }
}

/// The settings that a list of `KEY=VALUE` entries makes: each key has the
/// value of its last entry.
pub open spec fn settings(es: Seq<(Seq<char>, Seq<char>)>) -> Map<Seq<char>, Seq<char>>
    decreases es.len(),
{
    if es.len() == 0 {
        Map::empty()
    } else {
        settings(es.drop_last()).insert(es.last().0, es.last().1)
    }
}

/// The texts of a list of key/value pairs.
pub open spec fn pair_texts(es: Seq<(String, String)>) -> Seq<(Seq<char>, Seq<char>)> {
    es.map_values(|e: (String, String)| (e.0@, e.1@))
}

/// The value of `k` is that of its last entry.
pub proof fn lemma_settings_last(es: Seq<(Seq<char>, Seq<char>)>, k: Seq<char>, i: int)
    requires
        0 <= i < es.len(),
        es[i].0 == k,
        forall|j: int| i < j < es.len() ==> (#[trigger] es[j]).0 != k,
    ensures
        settings(es).contains_key(k),
        settings(es)[k] == es[i].1,
    decreases es.len(),
{
    if i < es.len() - 1 {
        lemma_settings_last(es.drop_last(), k, i);
        assert(es.last() == es[es.len() - 1]);
    }
}

/// A key without entries has no value.
pub proof fn lemma_settings_absent(es: Seq<(Seq<char>, Seq<char>)>, k: Seq<char>)
    requires
        forall|j: int| 0 <= j < es.len() ==> (#[trigger] es[j]).0 != k,
    ensures
        !settings(es).contains_key(k),
    decreases es.len(),
{
    if es.len() > 0 {
        lemma_settings_absent(es.drop_last(), k);
        assert(es.last() == es[es.len() - 1]);
    }
}

/// The index of the last entry of `es` whose key is `key`.
fn last_entry(es: &Vec<(String, String)>, key: &str) -> (r: Option<usize>)
    ensures
        match r {
            Some(i) => i < es@.len() && settings(pair_texts(es@)).contains_key(key@) && settings(
                pair_texts(es@),
            )[key@] == es@[i as int].1@,
            None => !settings(pair_texts(es@)).contains_key(key@),
        },
{
    let ghost ps = pair_texts(es@);
    let mut i = es.len();
    while i > 0
        invariant
            i <= es@.len(),
            ps == pair_texts(es@),
            forall|j: int| i <= j < es@.len() ==> (#[trigger] ps[j]).0 != key@,
        decreases i,
    {
        if str_eq(es[i - 1].0.as_str(), key) {
            proof {
                lemma_settings_last(ps, key@, i - 1);
            }
            return Some(i - 1);
        }
        i = i - 1;
    }
    proof {
        lemma_settings_absent(ps, key@);
    }
    None
}

/// The settings of the CLI: `KEY=VALUE` entries from the configuration
/// file and the environment, in the order they were read; a later entry
/// overrides an earlier one. `path` is where the file lives.
pub struct Config {
    pub entries: Vec<(String, String)>,
    pub path: String,
}

impl View for Config {
    type V = Map<Seq<char>, Seq<char>>;

    open spec fn view(&self) -> Map<Seq<char>, Seq<char>> {
        settings(pair_texts(self.entries@))
    }
}

/// The settings that the environment may set, in the order they are read;
/// a value from the environment wins over the file's.
pub open spec fn override_keys_spec() -> Seq<Seq<char>> {
    seq![
        "DOMAINESIA_BASE_URL"@,
        "DOMAINESIA_DEFAULT_DOMAIN"@,
        "DOMAINESIA_COOKIE_JAR"@,
        "DOMAINESIA_LOGIN_ENDPOINT"@,
        "DOMAINESIA_DNS_ADD_ENDPOINT"@,
        "DOMAINESIA_CSRF_HEADER"@,
        "DOMAINESIA_CSRF_TOKEN"@,
    ]
}

/// The settings that the environment may set (see `override_keys_spec`).
pub fn override_keys() -> (res: Vec<String>)
    ensures
        texts(res@) == override_keys_spec(),
{
    let mut keys: Vec<String> = Vec::new();
    keys.push(String::from_str("DOMAINESIA_BASE_URL"));
    keys.push(String::from_str("DOMAINESIA_DEFAULT_DOMAIN"));
    keys.push(String::from_str("DOMAINESIA_COOKIE_JAR"));
    keys.push(String::from_str("DOMAINESIA_LOGIN_ENDPOINT"));
    keys.push(String::from_str("DOMAINESIA_DNS_ADD_ENDPOINT"));
    keys.push(String::from_str("DOMAINESIA_CSRF_HEADER"));
    keys.push(String::from_str("DOMAINESIA_CSRF_TOKEN"));
    assert(texts(keys@) =~= override_keys_spec());
    keys
}

/// One line of the configuration file read as a setting: the trimmed line
/// split at its first `=`, key and value trimmed; nothing for blank lines,
/// lines that start with `#` and lines without `=`.
pub open spec fn config_line(line: Seq<char>) -> Option<(Seq<char>, Seq<char>)> {
    let t = trim(line);
    if t.len() == 0 || starts_with(t, "#"@) {
        None
    } else {
        match find(t, "="@) {
            None => None,
            Some(i) => Some((trim(t.take(i)), trim(t.skip(i + 1)))),
        }
    }
}

/// The settings of the lines `lines`, in order.
pub open spec fn config_lines(lines: Seq<Seq<char>>) -> Seq<(Seq<char>, Seq<char>)>
    decreases lines.len(),
{
    if lines.len() == 0 {
        Seq::empty()
    } else {
        let prev = config_lines(lines.drop_last());
        match config_line(lines.last()) {
            Some(e) => prev.push(e),
            None => prev,
        }
    }
}

/// The settings of the configuration file `text`, line by line.
pub open spec fn config_entries(text: Seq<char>) -> Seq<(Seq<char>, Seq<char>)> {
    config_lines(split(text, "\n"@))
}

/// `s` with its leading and trailing white space removed.
fn trimmed_range(s: &[char], lo: usize, hi: usize) -> (res: Vec<char>)
    requires
        lo <= hi <= s@.len(),
    ensures
        res@ == trim(s@.subrange(lo as int, hi as int)),
{
    let part = copy_range(s, lo, hi);
    let (a, b) = trim_bounds(part.as_slice());
    copy_range(part.as_slice(), a, b)
}

/// One line of the configuration file read as a setting (see
/// `config_line`).
fn config_line_exec(line: &[char]) -> (r: Option<(String, String)>)
    ensures
        match r {
            Some(e) => config_line(line@) == Some((e.0@, e.1@)),
            None => config_line(line@) is None,
        },
{
    proof {
        reveal_strlit("#");
        reveal_strlit("=");
    }
    let t = trimmed_range(line, 0, line.len());
    assert(line@.subrange(0, line@.len() as int) =~= line@);
    if t.len() == 0 || starts_with_chars(t.as_slice(), to_chars("#").as_slice()) {
        return None;
    }
    match find_chars(t.as_slice(), to_chars("=").as_slice()) {
        None => None,
        Some(i) => {
            let k = trimmed_range(t.as_slice(), 0, i);
            let v = trimmed_range(t.as_slice(), i + 1, t.len());
            assert(t@.subrange(0, i as int) =~= t@.take(i as int));
            assert(t@.subrange(i + 1, t@.len() as int) =~= t@.skip(i + 1));
            Some((string_of(k.as_slice()), string_of(v.as_slice())))
        },
    }
}

impl Config {
    /// The settings of the configuration file `text`, then those of
    /// `overrides` (the environment), which win over the file's.
    pub fn from_text(text: &str, overrides: &[(String, String)], path: &str) -> (res: Config)
        ensures
            pair_texts(res.entries@) == config_entries(text@) + pair_texts(overrides@),
            res@ == settings(config_entries(text@) + pair_texts(overrides@)),
            res.path@ == path@,
    {
        proof {
            reveal_strlit("\n");
        }
        let s = to_chars(text);
        let lines = split_chars(s.as_slice(), to_chars("\n").as_slice());
        let ghost ls = char_vecs(lines@);
        let mut entries: Vec<(String, String)> = Vec::new();
        let mut i: usize = 0;
        assert(ls.take(0) =~= Seq::<Seq<char>>::empty());
        while i < lines.len()
            invariant
                i <= lines@.len(),
                ls == char_vecs(lines@),
                pair_texts(entries@) == config_lines(ls.take(i as int)),
            decreases lines@.len() - i,
        {
            assert(ls.take(i + 1).drop_last() =~= ls.take(i as int));
            assert(ls.take(i + 1).last() == lines@[i as int]@);
            let ghost before = pair_texts(entries@);
            match config_line_exec(lines[i].as_slice()) {
                Some(e) => {
                    let ghost ev = (e.0@, e.1@);
                    entries.push(e);
                    assert(pair_texts(entries@) =~= before.push(ev));
                },
                None => {},
            }
            i = i + 1;
        }
        assert(ls.take(lines@.len() as int) =~= ls);
        let ghost file = pair_texts(entries@);
        let mut j: usize = 0;
        while j < overrides.len()
            invariant
                j <= overrides@.len(),
                pair_texts(entries@) == file + pair_texts(overrides@).take(j as int),
            decreases overrides@.len() - j,
        {
            let ghost before = pair_texts(entries@);
            let k = overrides[j].0.clone();
            let v = overrides[j].1.clone();
            entries.push((k, v));
            assert(pair_texts(entries@) =~= before.push(pair_texts(overrides@)[j as int]));
            assert(pair_texts(overrides@).take(j + 1) =~= pair_texts(overrides@).take(j as int).push(
                pair_texts(overrides@)[j as int],
            ));
            j = j + 1;
        }
        assert(pair_texts(overrides@).take(overrides@.len() as int) =~= pair_texts(overrides@));
        Config { entries, path: String::from_str(path) }
    }

    /// The value of the setting `key`, if it is set.
    pub fn get(&self, key: &str) -> (r: Option<&str>)
        ensures
            match r {
                Some(v) => self@.contains_key(key@) && self@[key@] == v@,
                None => !self@.contains_key(key@),
            },
    {
        match last_entry(&self.entries, key) {
            Some(i) => Some(self.entries[i].1.as_str()),
            None => None,
        }
    }
}

/// One line of an existing configuration file as the updater keeps it: the
/// line split at its first `=`, key and value trimmed; nothing for lines
/// without `=`.
pub open spec fn kept_line(line: Seq<char>) -> Option<(Seq<char>, Seq<char>)> {
    match find(line, "="@) {
        None => None,
        Some(i) => Some((trim(line.take(i)), trim(line.skip(i + 1)))),
    }
}

/// The entries that the updater keeps from the lines `lines`, in order.
pub open spec fn kept_lines(lines: Seq<Seq<char>>) -> Seq<(Seq<char>, Seq<char>)>
    decreases lines.len(),
{
    if lines.len() == 0 {
        Seq::empty()
    } else {
        let prev = kept_lines(lines.drop_last());
        match kept_line(lines.last()) {
            Some(e) => prev.push(e),
            None => prev,
        }
    }
}

/// The keys of `es` in order of first appearance, each once.
pub open spec fn key_order(es: Seq<(Seq<char>, Seq<char>)>) -> Seq<Seq<char>>
    decreases es.len(),
{
    if es.len() == 0 {
        Seq::empty()
    } else {
        let prev = key_order(es.drop_last());
        if prev.contains(es.last().0) {
            prev
        } else {
            prev.push(es.last().0)
        }
    }
}

/// A configuration file with one `KEY=VALUE` line for each key of `order`
/// that `m` sets.
pub open spec fn config_text(order: Seq<Seq<char>>, m: Map<Seq<char>, Seq<char>>) -> Seq<char>
    decreases order.len(),
{
    if order.len() == 0 {
        Seq::empty()
    } else {
        let prev = config_text(order.drop_last(), m);
        let k = order.last();
        if m.contains_key(k) {
            prev + k + "="@ + m[k] + "\n"@
        } else {
            prev
        }
    }
}

/// The configuration file after `updates` were written into `existing`:
/// every key keeps its first line's place, new keys follow in order, and
/// each key gets its last value.
pub open spec fn upsert_spec(existing: Seq<char>, updates: Seq<(Seq<char>, Seq<char>)>) -> Seq<char> {
    let es = kept_lines(split(existing, "\n"@)) + updates;
    config_text(key_order(es), settings(es))
}

fn kept_line_exec(line: &[char]) -> (r: Option<(String, String)>)
    ensures
        match r {
            Some(e) => kept_line(line@) == Some((e.0@, e.1@)),
            None => kept_line(line@) is None,
        },
{
    proof {
        reveal_strlit("=");
    }
    let n = line.len();
    match find_chars(line, to_chars("=").as_slice()) {
        None => None,
        Some(i) => {
            let k = trimmed_range(line, 0, i);
            let v = trimmed_range(line, i + 1, line.len());
            assert(line@.subrange(0, i as int) =~= line@.take(i as int));
            assert(line@.subrange(i + 1, line@.len() as int) =~= line@.skip(i + 1));
            Some((string_of(k.as_slice()), string_of(v.as_slice())))
        },
    }
}

fn contains_string(items: &Vec<String>, x: &str) -> (r: bool)
    ensures
        r == texts(items@).contains(x@),
{
    let mut i: usize = 0;
    while i < items.len()
        invariant
            i <= items@.len(),
            forall|j: int| 0 <= j < i ==> items@[j]@ != x@,
        decreases items@.len() - i,
    {
        if str_eq(items[i].as_str(), x) {
            assert(texts(items@)[i as int] == x@);
            return true;
        }
        i = i + 1;
    }
    assert forall|j: int| 0 <= j < texts(items@).len() implies texts(items@)[j] != x@ by {
        assert(texts(items@)[j] == items@[j]@);
    }
    false
}

/// The entries that the updater keeps from the file `existing`.
fn kept_entries(existing: &str) -> (es: Vec<(String, String)>)
    ensures
        pair_texts(es@) == kept_lines(split(existing@, "\n"@)),
{
    proof {
        reveal_strlit("\n");
    }
    let s = to_chars(existing);
    let lines = split_chars(s.as_slice(), to_chars("\n").as_slice());
    let ghost ls = char_vecs(lines@);
    let mut es: Vec<(String, String)> = Vec::new();
    let mut i: usize = 0;
    assert(ls.take(0) =~= Seq::<Seq<char>>::empty());
    while i < lines.len()
        invariant
            i <= lines@.len(),
            ls == char_vecs(lines@),
            pair_texts(es@) == kept_lines(ls.take(i as int)),
        decreases lines@.len() - i,
    {
        assert(ls.take(i + 1).drop_last() =~= ls.take(i as int));
        assert(ls.take(i + 1).last() == lines@[i as int]@);
        let ghost before = pair_texts(es@);
        match kept_line_exec(lines[i].as_slice()) {
            Some(e) => {
                let ghost ev = (e.0@, e.1@);
                es.push(e);
                assert(pair_texts(es@) =~= before.push(ev));
            },
            None => {},
        }
        i = i + 1;
    }
    assert(ls.take(lines@.len() as int) =~= ls);
    es
}

/// Appends copies of `more` to `es`.
fn append_entries(es: &mut Vec<(String, String)>, more: &[(String, String)])
    ensures
        pair_texts(final(es)@) == pair_texts(old(es)@) + pair_texts(more@),
{
    let ghost start = pair_texts(es@);
    let mut j: usize = 0;
    assert(start + pair_texts(more@).take(0) =~= start);
    while j < more.len()
        invariant
            j <= more@.len(),
            pair_texts(es@) == start + pair_texts(more@).take(j as int),
        decreases more@.len() - j,
    {
        let ghost before = pair_texts(es@);
        let k = more[j].0.clone();
        let v = more[j].1.clone();
        es.push((k, v));
        assert(pair_texts(es@) =~= before.push(pair_texts(more@)[j as int]));
        assert(pair_texts(more@).take(j + 1) =~= pair_texts(more@).take(j as int).push(
            pair_texts(more@)[j as int],
        ));
        j = j + 1;
    }
    assert(pair_texts(more@).take(more@.len() as int) =~= pair_texts(more@));
}

/// The keys of `es` in order of first appearance.
fn ordered_keys(es: &Vec<(String, String)>) -> (order: Vec<String>)
    ensures
        texts(order@) == key_order(pair_texts(es@)),
{
    let ghost all = pair_texts(es@);
    let mut order: Vec<String> = Vec::new();
    let mut k: usize = 0;
    assert(all.take(0) =~= Seq::<(Seq<char>, Seq<char>)>::empty());
    while k < es.len()
        invariant
            k <= es@.len(),
            all == pair_texts(es@),
            texts(order@) == key_order(all.take(k as int)),
        decreases es@.len() - k,
    {
        assert(all.take(k + 1).drop_last() =~= all.take(k as int));
        assert(all.take(k + 1).last() == all[k as int]);
        if !contains_string(&order, es[k].0.as_str()) {
            let ghost before = texts(order@);
            let key = es[k].0.clone();
            order.push(key);
            assert(texts(order@) =~= before.push(all[k as int].0));
        }
        k = k + 1;
    }
    assert(all.take(es@.len() as int) =~= all);
    order
}

/// One `KEY=VALUE` line for each key of `order` that `es` sets.
fn render_config(order: &Vec<String>, es: &Vec<(String, String)>) -> (content: String)
    ensures
        content@ == config_text(texts(order@), settings(pair_texts(es@))),
{
    let ghost all = pair_texts(es@);
    let mut content = String::new();
    let mut m: usize = 0;
    assert(texts(order@).take(0) =~= Seq::<Seq<char>>::empty());
    while m < order.len()
        invariant
            m <= order@.len(),
            all == pair_texts(es@),
            content@ == config_text(texts(order@).take(m as int), settings(all)),
        decreases order@.len() - m,
    {
        assert(texts(order@).take(m + 1).drop_last() =~= texts(order@).take(m as int));
        assert(texts(order@).take(m + 1).last() == order@[m as int]@);
        match last_entry(es, order[m].as_str()) {
            Some(at) => {
                content.append(order[m].as_str());
                content.append("=");
                content.append(es[at].1.as_str());
                content.append("\n");
            },
            None => {},
        }
        m = m + 1;
    }
    assert(texts(order@).take(order@.len() as int) =~= texts(order@));
    content
}

/// The configuration file `existing` with `updates` written into it (see
/// `upsert_spec`).
pub fn upsert_config_content(existing: &str, updates: &[(String, String)]) -> (res: String)
    ensures
        res@ == upsert_spec(existing@, pair_texts(updates@)),
{
    let mut es = kept_entries(existing);
    append_entries(&mut es, updates);
    let order = ordered_keys(&es);
    render_config(&order, &es)
}

} // verus!
