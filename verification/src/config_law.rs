//! Reading a configuration file back after writing settings into it.
use vstd::prelude::*;
use crate::cli::{
    config_entries, config_line, config_lines, config_text, key_order, kept_line, kept_lines,
    settings, upsert_spec,
};
use crate::text::{
    all_whitespace, find, is_trimmed, is_whitespace, lemma_find_exists, lemma_find_is,
    lemma_find_none, lemma_find_some, lemma_split_nonempty, lemma_trim_end,
    lemma_trim_end_concat, lemma_trim_end_suffix, lemma_trim_fixed, lemma_trim_is_trimmed,
    lemma_trim_start, lemma_trim_start_concat, lemma_trim_start_drops_whitespace,
    lemma_trim_within, occurs_at, split, starts_with, trim, trim_end, trim_start,
};

verus! {

/// No character of `s` is `c`.
pub open spec fn lacks(s: Seq<char>, c: char) -> bool {
    forall|i: int| 0 <= i < s.len() ==> s[i] != c
}

/// A setting that can be written as one `KEY=VALUE` line and read back as
/// it is: the key holds no `=` and neither holds a line break, and both
/// are trimmed.
pub open spec fn writable(e: (Seq<char>, Seq<char>)) -> bool {
    &&& lacks(e.0, '=')
    &&& lacks(e.0, '\n')
    &&& is_trimmed(e.0)
    &&& lacks(e.1, '\n')
    &&& is_trimmed(e.1)
}

/// A key that marks a comment line.
pub open spec fn is_comment_key(k: Seq<char>) -> bool {
    starts_with(k, "#"@)
}

/// The settings of `m` whose keys are not comment keys.
pub open spec fn uncommented(m: Map<Seq<char>, Seq<char>>) -> Map<Seq<char>, Seq<char>> {
    Map::new(|k: Seq<char>| m.contains_key(k) && !is_comment_key(k), |k: Seq<char>| m[k])
}

/// The entries of `es` whose keys are not comment keys.
pub open spec fn without_comment_entries(es: Seq<(Seq<char>, Seq<char>)>) -> Seq<
    (Seq<char>, Seq<char>),
>
    decreases es.len(),
{
    if es.len() == 0 {
        Seq::empty()
    } else if is_comment_key(es.last().0) {
        without_comment_entries(es.drop_last())
    } else {
        without_comment_entries(es.drop_last()).push(es.last())
    }
}

/// Later settings win: the settings of the entries `a` followed by `b` are
/// those of `a` with every key that `b` sets taking its value from `b`
/// (the environment over the configuration file, an update over an old
/// value).
pub proof fn law_later_settings_win(a: Seq<(Seq<char>, Seq<char>)>, b: Seq<(Seq<char>, Seq<char>)>)
    ensures
        settings(a + b) == settings(a).union_prefer_right(settings(b)),
    decreases b.len(),
{
    if b.len() == 0 {
        assert(a + b =~= a);
        assert(settings(a).union_prefer_right(settings(b)) =~= settings(a));
    } else {
        law_later_settings_win(a, b.drop_last());
        assert((a + b).drop_last() =~= a + b.drop_last());
        assert((a + b).last() == b.last());
        assert(settings(a + b) =~= settings(a).union_prefer_right(settings(b)));
    }
}

/// Dropping comment entries drops comment keys from the settings.
proof fn lemma_settings_uncommented(es: Seq<(Seq<char>, Seq<char>)>)
    ensures
        settings(without_comment_entries(es)) == uncommented(settings(es)),
    decreases es.len(),
{
    if es.len() == 0 {
        assert(uncommented(settings(es)) =~= Map::<Seq<char>, Seq<char>>::empty());
    } else {
        let p = es.drop_last();
        let e = es.last();
        lemma_settings_uncommented(p);
        if is_comment_key(e.0) {
            assert(settings(without_comment_entries(es)) == uncommented(settings(p)));
            assert(uncommented(settings(p)) =~= uncommented(settings(p).insert(e.0, e.1)));
        } else {
            let w = without_comment_entries(p);
            assert(without_comment_entries(es) == w.push(e));
            assert(w.push(e).drop_last() =~= w);
            assert(settings(w.push(e)) == settings(w).insert(e.0, e.1));
            assert(uncommented(settings(p)).insert(e.0, e.1) =~= uncommented(
                settings(p).insert(e.0, e.1),
            ));
        }
    }
}

/// A key is set exactly where some entry has it.
proof fn lemma_settings_keys(es: Seq<(Seq<char>, Seq<char>)>, k: Seq<char>)
    ensures
        settings(es).contains_key(k) <==> exists|j: int| 0 <= j < es.len() && (#[trigger] es[j]).0
            == k,
        key_order(es).contains(k) <==> exists|j: int| 0 <= j < es.len() && (#[trigger] es[j]).0
            == k,
    decreases es.len(),
{
    if es.len() > 0 {
        let p = es.drop_last();
        lemma_settings_keys(p, k);
        if exists|j: int| 0 <= j < es.len() && (#[trigger] es[j]).0 == k {
            let j = choose|j: int| 0 <= j < es.len() && (#[trigger] es[j]).0 == k;
            if j < es.len() - 1 {
                assert(p[j].0 == k);
            }
            if key_order(p).contains(es.last().0) {
                if j == es.len() - 1 {
                    assert(key_order(es).contains(k));
                }
            } else {
                assert(key_order(es) == key_order(p).push(es.last().0));
                if j == es.len() - 1 {
                    assert(key_order(es)[key_order(p).len() as int] == k);
                } else {
                    let m = choose|m: int| 0 <= m < key_order(p).len() && key_order(p)[m] == k;
                    assert(key_order(es)[m] == k);
                }
            }
        }
        if key_order(es).contains(k) {
            let m = choose|m: int| 0 <= m < key_order(es).len() && key_order(es)[m] == k;
            if key_order(p).contains(es.last().0) {
                assert(key_order(p)[m] == k);
                let j = choose|j: int| 0 <= j < p.len() && (#[trigger] p[j]).0 == k;
                assert(es[j] == p[j]);
            } else if m < key_order(p).len() {
                assert(key_order(p)[m] == k);
                let j = choose|j: int| 0 <= j < p.len() && (#[trigger] p[j]).0 == k;
                assert(es[j] == p[j]);
            } else {
                assert(es[es.len() - 1].0 == k);
            }
        }
        if settings(p).contains_key(k) {
            let j = choose|j: int| 0 <= j < p.len() && (#[trigger] p[j]).0 == k;
            assert(es[j] == p[j]);
        }
        if es.last().0 == k {
            assert(es[es.len() - 1].0 == k);
        }
    }
}

/// Trimming the trimmed end of `r` is trimming `r`.
proof fn lemma_trim_of_trim_end(r: Seq<char>)
    ensures
        trim(trim_end(r)) == trim(r),
{
    lemma_trim_end(r);
    let te = trim_end(r);
    let w = r.skip(te.len() as int);
    assert(r =~= te + w);
    if te.len() > 0 {
        assert(!is_whitespace(te.last()));
        assert(!all_whitespace(te)) by {
            assert(!is_whitespace(te[te.len() - 1]));
        }
        lemma_trim_start_concat(te, w);
        lemma_trim_end_suffix(trim_start(te), w);
    } else {
        lemma_trim_start(r);
        lemma_trim_start_drops_whitespace(r);
        if trim_start(r).len() > 0 {
            let k = r.len() - trim_start(r).len();
            assert(trim_start(r)[0] == r[k]);
            assert(is_whitespace(w[k]));
        }
    }
}

/// Trimming the start of `p` and then trimming is trimming `p`.
proof fn lemma_trim_of_trim_start(p: Seq<char>)
    ensures
        trim(trim_start(p)) == trim(p),
{
    lemma_trim_start(p);
}

/// A text starts with `#` exactly when its first character is `#`.
proof fn lemma_starts_with_hash(s: Seq<char>)
    ensures
        starts_with(s, "#"@) <==> (s.len() > 0 && s[0] == '#'),
{
    reveal_strlit("#");
    if s.len() > 0 && s[0] == '#' {
        assert(s.subrange(0, 1) =~= "#"@);
    }
    if starts_with(s, "#"@) {
        assert(s.subrange(0, 1)[0] == s[0]);
    }
}

/// A line with an `=` at `i` keeps, once trimmed, its first `=` at the
/// returned position `n`, with the same trimmed key and value around it.
proof fn lemma_trimmed_line_split(line: Seq<char>, i: int) -> (n: int)
    requires
        find(line, "="@) == Some(i),
    ensures
        trim(line).len() > n >= 0,
        find(trim(line), "="@) == Some(n),
        trim(trim(line).take(n)) == trim(line.take(i)),
        trim(trim(line).skip(n + 1)) == trim(line.skip(i + 1)),
        (trim(line)[0] == '#') <==> (trim(line.take(i)).len() > 0 && trim(line.take(i))[0]
            == '#'),
{
    reveal_strlit("=");
    let eq = "="@;
    lemma_find_some(line, eq);
    let p = line.take(i);
    let r = line.skip(i + 1);
    assert(line.subrange(i, i + 1) =~= eq);
    assert(line =~= p + (eq + r));
    assert forall|k: int| 0 <= k < p.len() implies p[k] != '=' by {
        if p[k] == '=' {
            assert(line.subrange(k, k + 1) =~= eq);
            assert(occurs_at(line, eq, k));
        }
    }
    lemma_trim_start_concat(p, eq + r);
    let ts = trim_start(p);
    assert(ts + (eq + r) =~= (ts + eq) + r);
    lemma_trim_end_concat(ts + eq, r);
    let t = trim(line);
    assert(t =~= ts + eq + trim_end(r));
    lemma_trim_start(p);
    let n = ts.len() as int;
    assert(t[n] == '=');
    assert forall|j: int| 0 <= j < n implies !#[trigger] occurs_at(t, eq, j) by {
        assert(t[j] == ts[j]);
        assert(ts[j] == p[p.len() - ts.len() + j]);
        if occurs_at(t, eq, j) {
            assert(t.subrange(j, j + 1)[0] == t[j]);
        }
    }
    assert(t.subrange(n, n + 1) =~= eq);
    lemma_find_is(t, eq, n);
    assert(t.take(n) =~= ts);
    assert(t.skip(n + 1) =~= trim_end(r));
    lemma_trim_of_trim_start(p);
    lemma_trim_of_trim_end(r);
    lemma_trim_end(ts);
    let tp = trim(p);
    assert(tp == trim_end(ts));
    if ts.len() > 0 {
        assert(t[0] == ts[0]);
        assert(tp[0] == ts[0]);
    } else {
        assert(t[0] == '=');
    }
    n
}

/// A line read as a setting is what the updater keeps of it, except that
/// settings with comment keys are not read.
proof fn lemma_config_line_kept(line: Seq<char>)
    ensures
        config_line(line) == match kept_line(line) {
            Some(e) => if is_comment_key(e.0) {
                None
            } else {
                Some(e)
            },
            None => None,
        },
{
    reveal_strlit("=");
    let eq = "="@;
    lemma_trim_start(line);
    let u = trim_start(line);
    lemma_trim_end(u);
    let t = trim(line);
    let a = line.len() - u.len();
    match find(line, eq) {
        None => {
            if t.len() > 0 && !starts_with(t, "#"@) {
                match find(t, eq) {
                    None => {},
                    Some(j) => {
                        assert(t[j] == line[a + j]) by {
                            assert(t[j] == u[j]);
                        }
                        lemma_find_some(t, eq);
                        assert(t.subrange(j, j + 1)[0] == t[j]);
                        assert(line.subrange(a + j, a + j + 1) =~= eq);
                        lemma_find_exists(line, eq, a + j);
                    },
                }
            }
        },
        Some(i) => {
            let n = lemma_trimmed_line_split(line, i);
            lemma_starts_with_hash(t);
            lemma_starts_with_hash(trim(line.take(i)));
        },
    }
}

/// Reading the lines of a file is keeping them as the updater does and
/// then dropping the settings with comment keys.
proof fn lemma_config_lines_kept(ls: Seq<Seq<char>>)
    ensures
        config_lines(ls) == without_comment_entries(kept_lines(ls)),
    decreases ls.len(),
{
    if ls.len() > 0 {
        let p = ls.drop_last();
        lemma_config_lines_kept(p);
        lemma_config_line_kept(ls.last());
        let kp = kept_lines(p);
        match kept_line(ls.last()) {
            Some(e) => {
                assert(kept_lines(ls) == kp.push(e));
                assert(kp.push(e).drop_last() =~= kp);
                assert(kp.push(e).last() == e);
            },
            None => {},
        }
    }
}

/// No piece of a text split at line breaks holds a line break.
proof fn lemma_split_lines_lack(s: Seq<char>)
    ensures
        forall|j: int| 0 <= j < split(s, "\n"@).len() ==> lacks(#[trigger] split(s, "\n"@)[j], '\n'),
    decreases s.len(),
{
    reveal_strlit("\n");
    let nl = "\n"@;
    match find(s, nl) {
        None => {
            assert(split(s, nl) == seq![s]);
            assert forall|k: int| 0 <= k < s.len() implies s[k] != '\n' by {
                if s[k] == '\n' {
                    assert(s.subrange(k, k + 1) =~= nl);
                    lemma_find_exists(s, nl, k);
                }
            }
        },
        Some(i) => {
            lemma_find_some(s, nl);
            let rest = s.skip(i + 1);
            lemma_split_lines_lack(rest);
            assert(split(s, nl) == seq![s.take(i)] + split(rest, nl));
            assert forall|k: int| 0 <= k < i implies s.take(i)[k] != '\n' by {
                if s[k] == '\n' {
                    assert(s.subrange(k, k + 1) =~= nl);
                    assert(occurs_at(s, nl, k));
                }
            }
            assert forall|j: int| 0 <= j < split(s, nl).len() implies lacks(
                #[trigger] split(s, nl)[j],
                '\n',
            ) by {
                if j > 0 {
                    assert(split(s, nl)[j] == split(rest, nl)[j - 1]);
                }
            }
        },
    }
}

/// What the updater keeps of a line without line breaks can be written
/// back as a line.
proof fn lemma_kept_writable(line: Seq<char>)
    requires
        lacks(line, '\n'),
        kept_line(line) is Some,
    ensures
        writable(kept_line(line)->0),
{
    reveal_strlit("=");
    let eq = "="@;
    lemma_find_some(line, eq);
    let i = find(line, eq)->0;
    let p = line.take(i);
    let r = line.skip(i + 1);
    assert forall|k: int| 0 <= k < p.len() implies p[k] != '=' by {
        if line[k] == '=' {
            assert(line.subrange(k, k + 1) =~= eq);
            assert(occurs_at(line, eq, k));
        }
    }
    assert forall|k: int| 0 <= k < p.len() implies p[k] != '\n' by {
        assert(p[k] == line[k]);
    }
    assert forall|k: int| 0 <= k < r.len() implies r[k] != '\n' by {
        assert(r[k] == line[i + 1 + k]);
    }
    lemma_trim_within(p, '=');
    lemma_trim_within(p, '\n');
    lemma_trim_within(r, '\n');
    lemma_trim_is_trimmed(p);
    lemma_trim_is_trimmed(r);
}

/// Every entry kept from lines without line breaks can be written back.
proof fn lemma_kept_lines_writable(ls: Seq<Seq<char>>)
    requires
        forall|j: int| 0 <= j < ls.len() ==> lacks(#[trigger] ls[j], '\n'),
    ensures
        forall|j: int| 0 <= j < kept_lines(ls).len() ==> writable(#[trigger] kept_lines(ls)[j]),
    decreases ls.len(),
{
    if ls.len() > 0 {
        let p = ls.drop_last();
        assert forall|j: int| 0 <= j < p.len() implies lacks(#[trigger] p[j], '\n') by {
            assert(p[j] == ls[j]);
        }
        lemma_kept_lines_writable(p);
        assert(lacks(ls[ls.len() - 1], '\n'));
        let kp = kept_lines(p);
        if kept_line(ls.last()) is Some {
            lemma_kept_writable(ls.last());
        }
        assert forall|j: int| 0 <= j < kept_lines(ls).len() implies writable(
            #[trigger] kept_lines(ls)[j],
        ) by {
            if j < kp.len() {
                assert(kept_lines(ls)[j] == kp[j]);
            }
        }
    }
}

/// Every setting made by entries that can be written can be written.
proof fn lemma_settings_writable(es: Seq<(Seq<char>, Seq<char>)>)
    requires
        forall|j: int| 0 <= j < es.len() ==> writable(#[trigger] es[j]),
    ensures
        forall|k: Seq<char>| #[trigger]
            settings(es).contains_key(k) ==> writable((k, settings(es)[k])),
    decreases es.len(),
{
    if es.len() > 0 {
        let p = es.drop_last();
        assert forall|j: int| 0 <= j < p.len() implies writable(#[trigger] p[j]) by {
            assert(p[j] == es[j]);
        }
        lemma_settings_writable(p);
        assert(writable(es[es.len() - 1]));
        assert forall|k: Seq<char>| #[trigger]
            settings(es).contains_key(k) implies writable((k, settings(es)[k])) by {
            if k != es.last().0 {
                assert(settings(p).contains_key(k));
            }
        }
    }
}

/// The lines that `config_text(order, m)` writes, in order.
pub open spec fn written_lines(order: Seq<Seq<char>>, m: Map<Seq<char>, Seq<char>>) -> Seq<
    Seq<char>,
>
    decreases order.len(),
{
    if order.len() == 0 {
        Seq::empty()
    } else {
        let prev = written_lines(order.drop_last(), m);
        let k = order.last();
        if m.contains_key(k) {
            prev.push(k + "="@ + m[k])
        } else {
            prev
        }
    }
}

/// The settings that reading back `config_text(order, m)` gives, in order.
pub open spec fn written_entries(order: Seq<Seq<char>>, m: Map<Seq<char>, Seq<char>>) -> Seq<
    (Seq<char>, Seq<char>),
>
    decreases order.len(),
{
    if order.len() == 0 {
        Seq::empty()
    } else {
        let prev = written_entries(order.drop_last(), m);
        let k = order.last();
        if m.contains_key(k) && !is_comment_key(k) {
            prev.push((k, m[k]))
        } else {
            prev
        }
    }
}

/// A text without line breaks is one piece.
proof fn lemma_split_one_line(s: Seq<char>)
    requires
        lacks(s, '\n'),
    ensures
        split(s, "\n"@) == seq![s],
{
    reveal_strlit("\n");
    let nl = "\n"@;
    assert forall|j: int| !#[trigger] occurs_at(s, nl, j) by {
        if occurs_at(s, nl, j) {
            assert(s.subrange(j, j + 1)[0] == s[j]);
        }
    }
    lemma_find_none(s, nl);
}

/// Writing a line `x` and a line break after `s` extends the last piece of
/// `s` by `x` and starts an empty piece.
proof fn lemma_split_append_line(s: Seq<char>, x: Seq<char>)
    requires
        lacks(x, '\n'),
    ensures
        split(s + x + "\n"@, "\n"@) == split(s, "\n"@).drop_last() + seq![
            split(s, "\n"@).last() + x,
            Seq::empty(),
        ],
    decreases s.len(),
{
    reveal_strlit("\n");
    let nl = "\n"@;
    let w = s + x + nl;
    lemma_split_one_line(Seq::empty());
    match find(s, nl) {
        None => {
            assert forall|k: int| 0 <= k < s.len() implies s[k] != '\n' by {
                if s[k] == '\n' {
                    assert(s.subrange(k, k + 1) =~= nl);
                    lemma_find_exists(s, nl, k);
                }
            }
            lemma_split_one_line(s);
            let n: int = (s.len() + x.len()) as int;
            assert(w.subrange(n, n + 1) =~= nl);
            assert forall|j: int| 0 <= j < n implies !#[trigger] occurs_at(w, nl, j) by {
                if occurs_at(w, nl, j) {
                    assert(w.subrange(j, j + 1)[0] == w[j]);
                    if j < s.len() {
                        assert(w[j] == s[j]);
                    } else {
                        assert(w[j] == x[j - s.len()]);
                    }
                }
            }
            lemma_find_is(w, nl, n);
            assert(w.take(n) =~= s + x);
            assert(w.skip(n + 1) =~= Seq::<char>::empty());
            assert(split(w, nl) == seq![w.take(n)] + split(w.skip(n + 1), nl));
            assert(split(s, nl).drop_last() + seq![split(s, nl).last() + x, Seq::empty()] =~= seq![
                s + x,
                Seq::empty(),
            ]);
        },
        Some(i) => {
            lemma_find_some(s, nl);
            let rest = s.skip(i + 1);
            lemma_split_append_line(rest, x);
            lemma_split_nonempty(rest, nl);
            assert(w.subrange(i, i + 1) =~= s.subrange(i, i + 1));
            assert forall|j: int| 0 <= j < i implies !#[trigger] occurs_at(w, nl, j) by {
                if occurs_at(w, nl, j) {
                    assert(w.subrange(j, j + 1) =~= s.subrange(j, j + 1));
                    assert(occurs_at(s, nl, j));
                }
            }
            lemma_find_is(w, nl, i);
            assert(w.take(i) =~= s.take(i));
            assert(w.skip(i + 1) =~= rest + x + nl);
            assert(split(w, nl) == seq![s.take(i)] + split(rest + x + nl, nl));
            assert(split(s, nl) == seq![s.take(i)] + split(rest, nl));
            assert(split(s, nl).drop_last() =~= seq![s.take(i)] + split(rest, nl).drop_last());
            assert(split(s, nl).last() == split(rest, nl).last());
            assert(split(w, nl) =~= split(s, nl).drop_last() + seq![
                split(s, nl).last() + x,
                Seq::empty(),
            ]);
        },
    }
}

/// The lines of a written configuration file, followed by the empty piece
/// after its last line break.
proof fn lemma_split_config_text(order: Seq<Seq<char>>, m: Map<Seq<char>, Seq<char>>)
    requires
        forall|k: Seq<char>| #[trigger] m.contains_key(k) ==> writable((k, m[k])),
    ensures
        split(config_text(order, m), "\n"@) == written_lines(order, m).push(Seq::empty()),
    decreases order.len(),
{
    reveal_strlit("\n");
    reveal_strlit("=");
    let nl = "\n"@;
    if order.len() == 0 {
        lemma_split_one_line(Seq::empty());
        assert(config_text(order, m) =~= Seq::<char>::empty());
    } else {
        let po = order.drop_last();
        lemma_split_config_text(po, m);
        let k = order.last();
        if m.contains_key(k) {
            let prev = config_text(po, m);
            let x = k + "="@ + m[k];
            assert(writable((k, m[k])));
            assert forall|j: int| 0 <= j < x.len() implies x[j] != '\n' by {
                if j < k.len() {
                    assert(x[j] == k[j]);
                } else if j > k.len() {
                    assert(x[j] == m[k][j - k.len() - 1]);
                }
            }
            assert(config_text(order, m) =~= prev + x + nl);
            lemma_split_append_line(prev, x);
            let wl = written_lines(po, m);
            assert(wl.push(Seq::empty()).drop_last() =~= wl);
            assert(split(config_text(order, m), nl) =~= wl.push(x).push(Seq::empty()));
        }
    }
}

/// A written `KEY=VALUE` line reads back as its setting, unless its key
/// marks a comment.
proof fn lemma_config_line_written(k: Seq<char>, v: Seq<char>)
    requires
        writable((k, v)),
    ensures
        config_line(k + "="@ + v) == (if is_comment_key(k) {
            None
        } else {
            Some((k, v))
        }),
{
    reveal_strlit("=");
    let eq = "="@;
    let line = k + eq + v;
    let n = k.len() as int;
    assert(line.subrange(n, n + 1) =~= eq);
    assert forall|j: int| 0 <= j < n implies !#[trigger] occurs_at(line, eq, j) by {
        if occurs_at(line, eq, j) {
            assert(line.subrange(j, j + 1)[0] == line[j]);
            assert(line[j] == k[j]);
        }
    }
    lemma_find_is(line, eq, n);
    assert(line.take(n) =~= k);
    assert(line.skip(n + 1) =~= v);
    lemma_trim_fixed(k);
    lemma_trim_fixed(v);
    lemma_config_line_kept(line);
}

/// Reading the written lines gives the written settings.
proof fn lemma_config_lines_written(order: Seq<Seq<char>>, m: Map<Seq<char>, Seq<char>>)
    requires
        forall|k: Seq<char>| #[trigger] m.contains_key(k) ==> writable((k, m[k])),
    ensures
        config_lines(written_lines(order, m)) == written_entries(order, m),
    decreases order.len(),
{
    if order.len() > 0 {
        let po = order.drop_last();
        lemma_config_lines_written(po, m);
        let k = order.last();
        if m.contains_key(k) {
            let wl = written_lines(po, m);
            let x = k + "="@ + m[k];
            lemma_config_line_written(k, m[k]);
            assert(wl.push(x).drop_last() =~= wl);
            assert(wl.push(x).last() == x);
        }
    }
}

/// The settings read back from the written lines.
proof fn lemma_settings_written(order: Seq<Seq<char>>, m: Map<Seq<char>, Seq<char>>)
    ensures
        settings(written_entries(order, m)) == Map::new(
            |k: Seq<char>| order.contains(k) && m.contains_key(k) && !is_comment_key(k),
            |k: Seq<char>| m[k],
        ),
    decreases order.len(),
{
    if order.len() == 0 {
        assert(settings(written_entries(order, m)) =~= Map::new(
            |k: Seq<char>| order.contains(k) && m.contains_key(k) && !is_comment_key(k),
            |k: Seq<char>| m[k],
        ));
    } else {
        let po = order.drop_last();
        lemma_settings_written(po, m);
        let k = order.last();
        let we = written_entries(po, m);
        if m.contains_key(k) && !is_comment_key(k) {
            assert(we.push((k, m[k])).drop_last() =~= we);
        }
        assert forall|q: Seq<char>| order.contains(q) <==> (po.contains(q) || q == k) by {
            if order.contains(q) {
                let i = choose|i: int| 0 <= i < order.len() && order[i] == q;
                if i < po.len() {
                    assert(po[i] == q);
                }
            }
            if po.contains(q) {
                let i = choose|i: int| 0 <= i < po.len() && po[i] == q;
                assert(order[i] == q);
            }
            if q == k {
                assert(order[order.len() - 1] == q);
            }
        }
        assert(settings(written_entries(order, m)) =~= Map::new(
            |q: Seq<char>| order.contains(q) && m.contains_key(q) && !is_comment_key(q),
            |q: Seq<char>| m[q],
        ));
    }
}

/// Settings written into a configuration file are read back from it:
/// after `updates` are written into the file `existing`, reading the file
/// gives the settings that `existing` had, each key of `updates` taking the
/// value of its last update. This holds for updates whose key and value can
/// be written as one line (see `writable`) and whose key does not mark a
/// comment.
pub proof fn law_config_read_after_write(
    existing: Seq<char>,
    updates: Seq<(Seq<char>, Seq<char>)>,
)
    requires
        forall|j: int|
            0 <= j < updates.len() ==> writable(#[trigger] updates[j]) && !is_comment_key(
                updates[j].0,
            ),
    ensures
        settings(config_entries(upsert_spec(existing, updates))) == settings(
            config_entries(existing),
        ).union_prefer_right(settings(updates)),
{
    let ls = split(existing, "\n"@);
    let kept = kept_lines(ls);
    let es = kept + updates;
    let order = key_order(es);
    let m = settings(es);
    let text = upsert_spec(existing, updates);
    assert(text == config_text(order, m));
    lemma_split_lines_lack(existing);
    lemma_kept_lines_writable(ls);
    assert forall|j: int| 0 <= j < es.len() implies writable(#[trigger] es[j]) by {
        if j < kept.len() {
            assert(es[j] == kept[j]);
        } else {
            assert(es[j] == updates[j - kept.len()]);
        }
    }
    lemma_settings_writable(es);
    lemma_split_config_text(order, m);
    let wl = written_lines(order, m);
    assert(wl.push(Seq::empty()).drop_last() =~= wl);
    assert(config_entries(text) == config_lines(wl));
    lemma_config_lines_written(order, m);
    lemma_settings_written(order, m);
    assert forall|k: Seq<char>| order.contains(k) <==> m.contains_key(k) by {
        lemma_settings_keys(es, k);
    }
    law_later_settings_win(kept, updates);
    lemma_config_lines_kept(ls);
    lemma_settings_uncommented(kept);
    assert forall|k: Seq<char>| #[trigger] settings(updates).contains_key(k) implies !is_comment_key(
        k,
    ) by {
        lemma_settings_keys(updates, k);
        let j = choose|j: int| 0 <= j < updates.len() && (#[trigger] updates[j]).0 == k;
    }
    assert(settings(config_entries(text)) =~= uncommented(settings(kept)).union_prefer_right(
        settings(updates),
    ));
}

} // verus!
