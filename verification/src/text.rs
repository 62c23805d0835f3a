//! Text as sequences of characters: the searching, slicing and replacing
//! primitives that the parsers and encoders of this crate are built from.
use vstd::prelude::*;
use vstd::std_specs::iter::IteratorSpec;

verus! {

/// `pat` occurs in `s` starting at position `i`.
pub open spec fn occurs_at(s: Seq<char>, pat: Seq<char>, i: int) -> bool {
    &&& 0 <= i
    &&& i + pat.len() <= s.len()
    &&& s.subrange(i, i + pat.len()) == pat
}

/// `i` is the leftmost position at which `pat` occurs in `s`.
pub open spec fn is_first_occurrence(s: Seq<char>, pat: Seq<char>, i: int) -> bool {
    &&& occurs_at(s, pat, i)
    &&& forall|j: int| 0 <= j < i ==> !#[trigger] occurs_at(s, pat, j)
}

/// `i` is the rightmost position at which `pat` occurs in `s`.
pub open spec fn is_last_occurrence(s: Seq<char>, pat: Seq<char>, i: int) -> bool {
    &&& occurs_at(s, pat, i)
    &&& forall|j: int| i < j ==> !#[trigger] occurs_at(s, pat, j)
}

/// The position of the first occurrence of `pat` in `s` (`str::find`).
pub open spec fn find(s: Seq<char>, pat: Seq<char>) -> Option<int> {
    if exists|i: int| is_first_occurrence(s, pat, i) {
        Some(choose|i: int| is_first_occurrence(s, pat, i))
    } else {
        None
    }
}

/// The position of the last occurrence of `pat` in `s` (`str::rfind`).
pub open spec fn rfind(s: Seq<char>, pat: Seq<char>) -> Option<int> {
    if exists|i: int| is_last_occurrence(s, pat, i) {
        Some(choose|i: int| is_last_occurrence(s, pat, i))
    } else {
        None
    }
}

/// `pat` occurs somewhere in `s` (`str::contains`).
pub open spec fn contains(s: Seq<char>, pat: Seq<char>) -> bool {
    exists|i: int| occurs_at(s, pat, i)
}

/// `s` begins with `pat` (`str::starts_with`).
pub open spec fn starts_with(s: Seq<char>, pat: Seq<char>) -> bool {
    occurs_at(s, pat, 0)
}

/// `s` ends with `pat` (`str::ends_with`).
pub open spec fn ends_with(s: Seq<char>, pat: Seq<char>) -> bool {
    occurs_at(s, pat, s.len() - pat.len())
}

/// The first occurrence is unique, and it is what `find` names.
pub proof fn lemma_find_is(s: Seq<char>, pat: Seq<char>, i: int)
    requires
        is_first_occurrence(s, pat, i),
    ensures
        find(s, pat) == Some(i),
{
    let k = choose|k: int| is_first_occurrence(s, pat, k);
    assert(is_first_occurrence(s, pat, k));
    if k < i {
        assert(!occurs_at(s, pat, k));
    }
    if i < k {
        assert(!occurs_at(s, pat, i));
    }
}

/// Without any occurrence, `find` and `rfind` give nothing.
pub proof fn lemma_find_none(s: Seq<char>, pat: Seq<char>)
    requires
        forall|j: int| !#[trigger] occurs_at(s, pat, j),
    ensures
        find(s, pat) is None,
        rfind(s, pat) is None,
        !contains(s, pat),
{
}

/// The last occurrence is unique, and it is what `rfind` names.
pub proof fn lemma_rfind_is(s: Seq<char>, pat: Seq<char>, i: int)
    requires
        is_last_occurrence(s, pat, i),
    ensures
        rfind(s, pat) == Some(i),
{
    let k = choose|k: int| is_last_occurrence(s, pat, k);
    assert(is_last_occurrence(s, pat, k));
    if k < i {
        assert(!occurs_at(s, pat, i));
    }
    if i < k {
        assert(!occurs_at(s, pat, k));
    }
}

/// What `find` gives is an occurrence, and nothing before it is one.
pub proof fn lemma_find_some(s: Seq<char>, pat: Seq<char>)
    requires
        find(s, pat) is Some,
    ensures
        is_first_occurrence(s, pat, find(s, pat)->0),
        contains(s, pat),
{
}

/// Where `pat` occurs, `find` gives a position.
pub proof fn lemma_find_exists(s: Seq<char>, pat: Seq<char>, j: int)
    requires
        occurs_at(s, pat, j),
    ensures
        find(s, pat) is Some,
    decreases j,
{
    if forall|k: int| 0 <= k < j ==> !#[trigger] occurs_at(s, pat, k) {
        lemma_find_is(s, pat, j);
    } else {
        let k = choose|k: int| 0 <= k < j && #[trigger] occurs_at(s, pat, k);
        lemma_find_exists(s, pat, k);
    }
}

/// An occurrence in a suffix is an occurrence in the whole, shifted.
pub proof fn lemma_occurs_skip(s: Seq<char>, pat: Seq<char>, f: int, j: int)
    requires
        0 <= f <= s.len(),
        0 <= j,
    ensures
        occurs_at(s.skip(f), pat, j) <==> occurs_at(s, pat, j + f),
{
    if j + pat.len() <= s.len() - f {
        assert(s.skip(f).subrange(j, j + pat.len()) =~= s.subrange(j + f, j + f + pat.len()));
    }
}

/// An occurrence in a prefix is an occurrence in the whole.
pub proof fn lemma_occurs_take(s: Seq<char>, pat: Seq<char>, e: int, j: int)
    requires
        0 <= e <= s.len(),
    ensures
        occurs_at(s.take(e), pat, j) <==> (occurs_at(s, pat, j) && j + pat.len() <= e),
{
    if 0 <= j && j + pat.len() <= e {
        assert(s.take(e).subrange(j, j + pat.len()) =~= s.subrange(j, j + pat.len()));
    }
}

/// std `String::push`, which appends the character `c` to the end of the
/// string: the contract says the string's characters afterwards are the
/// old ones followed by `c`.
#[verifier::external_body]
pub(crate) fn push_char(s: &mut String, c: char)
    ensures
        final(s)@ == old(s)@.push(c),
{
    s.push(c);
}

/// The characters of `s`, in order.
pub fn to_chars(s: &str) -> (res: Vec<char>)
    ensures
        res@ == s@,
{
    let mut out: Vec<char> = Vec::new();
    let mut it = s.chars();
    loop
        invariant
            it.remaining() == s@.skip(out@.len() as int),
            out@ == s@.take(out@.len() as int),
            out@.len() <= s@.len(),
        ensures
            out@ == s@,
        decreases s@.len() - out@.len(),
    {
        match it.next() {
            Some(c) => {
                out.push(c);
            },
            None => {
                assert(out@ =~= s@);
                break;
            },
        }
    }
    out
}

/// A `String` holding the characters `s[lo..hi]`.
pub fn string_of_range(s: &[char], lo: usize, hi: usize) -> (res: String)
    requires
        lo <= hi <= s@.len(),
    ensures
        res@ == s@.subrange(lo as int, hi as int),
{
    let mut out = String::new();
    let mut k = lo;
    while k < hi
        invariant
            lo <= k <= hi <= s@.len(),
            out@ == s@.subrange(lo as int, k as int),
        decreases hi - k,
    {
        push_char(&mut out, s[k]);
        assert(s@.subrange(lo as int, k + 1) =~= s@.subrange(lo as int, k as int).push(s@[k as int]));
        k = k + 1;
    }
    out
}

/// A `String` holding all of `s`.
pub fn string_of(s: &[char]) -> (res: String)
    ensures
        res@ == s@,
{
    let res = string_of_range(s, 0, s.len());
    assert(s@.subrange(0, s@.len() as int) =~= s@);
    res
}

/// Appends the characters `s[lo..hi]` to `out`.
pub fn push_range(out: &mut String, s: &[char], lo: usize, hi: usize)
    requires
        lo <= hi <= s@.len(),
    ensures
        final(out)@ == old(out)@ + s@.subrange(lo as int, hi as int),
{
    let mut k = lo;
    while k < hi
        invariant
            lo <= k <= hi <= s@.len(),
            out@ == old(out)@ + s@.subrange(lo as int, k as int),
        decreases hi - k,
    {
        push_char(out, s[k]);
        assert(s@.subrange(lo as int, k + 1) =~= s@.subrange(lo as int, k as int).push(s@[k as int]));
        k = k + 1;
    }
}

/// Whether `pat` occurs in `s` at position `i`.
pub fn matches_at(s: &[char], pat: &[char], i: usize) -> (r: bool)
    ensures
        r == occurs_at(s@, pat@, i as int),
{
    if pat.len() > s.len() || i > s.len() - pat.len() {
        return false;
    }
    let n = s.len();
    let mut k: usize = 0;
    while k < pat.len()
        invariant
            k <= pat@.len(),
            n == s@.len(),
            i + pat@.len() <= s@.len(),
            forall|m: int| 0 <= m < k ==> s@[i + m] == pat@[m],
        decreases pat@.len() - k,
    {
        if s[i + k] != pat[k] {
            assert(s@.subrange(i as int, i + pat@.len())[k as int] != pat@[k as int]);
            return false;
        }
        k = k + 1;
    }
    assert(s@.subrange(i as int, i + pat@.len()) =~= pat@);
    true
}

/// The first occurrence of `pat` in `s[from..]`, as a position in `s`.
pub fn find_from(s: &[char], pat: &[char], from: usize) -> (r: Option<usize>)
    requires
        from <= s@.len(),
    ensures
        match r {
            Some(k) => from <= k && is_first_occurrence(s@.skip(from as int), pat@, k - from)
                && find(s@.skip(from as int), pat@) == Some(k - from) && occurs_at(
                s@,
                pat@,
                k as int,
            ),
            None => find(s@.skip(from as int), pat@) is None && forall|j: int|
                !#[trigger] occurs_at(s@.skip(from as int), pat@, j),
        },
{
    if pat.len() > s.len() - from {
        assert forall|j: int| !#[trigger] occurs_at(s@.skip(from as int), pat@, j) by {}
        proof {
            lemma_find_none(s@.skip(from as int), pat@);
        }
        return None;
    }
    let last = s.len() - pat.len();
    let mut k = from;
    loop
        invariant
            from <= k <= last,
            last + pat@.len() == s@.len(),
            from <= s@.len(),
            forall|j: int| from <= j < k ==> !#[trigger] occurs_at(s@, pat@, j),
        ensures
            forall|j: int| from <= j <= last ==> !#[trigger] occurs_at(s@, pat@, j),
        decreases last - k,
    {
        if matches_at(s, pat, k) {
            proof {
                let t = s@.skip(from as int);
                lemma_occurs_skip(s@, pat@, from as int, k - from);
                assert forall|j: int| 0 <= j < k - from implies !#[trigger] occurs_at(t, pat@, j) by {
                    lemma_occurs_skip(s@, pat@, from as int, j);
                }
                lemma_find_is(t, pat@, k - from);
            }
            return Some(k);
        }
        if k == last {
            break;
        }
        k = k + 1;
    }
    proof {
        let t = s@.skip(from as int);
        assert forall|j: int| !#[trigger] occurs_at(t, pat@, j) by {
            if 0 <= j {
                lemma_occurs_skip(s@, pat@, from as int, j);
            }
        }
        lemma_find_none(t, pat@);
    }
    None
}

/// The first occurrence of `pat` in `s`.
pub fn find_chars(s: &[char], pat: &[char]) -> (r: Option<usize>)
    ensures
        match r {
            Some(k) => find(s@, pat@) == Some(k as int) && occurs_at(s@, pat@, k as int),
            None => find(s@, pat@) is None && !contains(s@, pat@),
        },
{
    assert(s@.skip(0) =~= s@);
    find_from(s, pat, 0)
}

/// Whether `pat` occurs in `s`.
pub fn contains_chars(s: &[char], pat: &[char]) -> (r: bool)
    ensures
        r == contains(s@, pat@),
{
    find_chars(s, pat).is_some()
}

/// The last occurrence of `pat` in `s[..end]`.
pub fn rfind_before(s: &[char], pat: &[char], end: usize) -> (r: Option<usize>)
    requires
        end <= s@.len(),
    ensures
        match r {
            Some(k) => rfind(s@.take(end as int), pat@) == Some(k as int) && occurs_at(
                s@,
                pat@,
                k as int,
            ) && k + pat@.len() <= end,
            None => rfind(s@.take(end as int), pat@) is None,
        },
{
    let t = Ghost(s@.take(end as int));
    if pat.len() > end {
        proof {
            assert forall|j: int| !#[trigger] occurs_at(t@, pat@, j) by {}
            lemma_find_none(t@, pat@);
        }
        return None;
    }
    let mut k = end - pat.len();
    loop
        invariant
            k <= end - pat@.len(),
            pat@.len() <= end <= s@.len(),
            t@ == s@.take(end as int),
            forall|j: int| k < j ==> !#[trigger] occurs_at(t@, pat@, j),
        ensures
            forall|j: int| !#[trigger] occurs_at(t@, pat@, j),
        decreases k,
    {
        proof {
            lemma_occurs_take(s@, pat@, end as int, k as int);
        }
        if matches_at(s, pat, k) {
            proof {
                lemma_rfind_is(t@, pat@, k as int);
            }
            return Some(k);
        }
        if k == 0 {
            break;
        }
        k = k - 1;
    }
    proof {
        lemma_find_none(t@, pat@);
    }
    None
}

/// Whether `s` begins with `pat`.
pub fn starts_with_chars(s: &[char], pat: &[char]) -> (r: bool)
    ensures
        r == starts_with(s@, pat@),
{
    matches_at(s, pat, 0)
}

/// Whether `s` ends with `pat`.
pub fn ends_with_chars(s: &[char], pat: &[char]) -> (r: bool)
    ensures
        r == ends_with(s@, pat@),
{
    if pat.len() > s.len() {
        false
    } else {
        matches_at(s, pat, s.len() - pat.len())
    }
}

/// Whether two character sequences are equal.
pub fn chars_eq(a: &[char], b: &[char]) -> (r: bool)
    ensures
        r == (a@ == b@),
{
    if a.len() != b.len() {
        return false;
    }
    let r = matches_at(a, b, 0);
    assert(a@.subrange(0, b@.len() as int) =~= a@);
    r
}

/// Whether two strings are equal.
pub fn str_eq(a: &str, b: &str) -> (r: bool)
    ensures
        r == (a@ == b@),
{
    let x = to_chars(a);
    let y = to_chars(b);
    chars_eq(x.as_slice(), y.as_slice())
}

/// Each non-overlapping occurrence of `from`, leftmost first, replaced by
/// `to` (`str::replace` with a non-empty pattern).
pub open spec fn replace_all(s: Seq<char>, from: Seq<char>, to: Seq<char>) -> Seq<char>
    decreases s.len(),
{
    if s.len() == 0 {
        s
    } else if from.len() > 0 && occurs_at(s, from, 0) {
        to + replace_all(s.skip(from.len() as int), from, to)
    } else {
        seq![s[0]] + replace_all(s.drop_first(), from, to)
    }
}

/// `s` with every occurrence of `from` replaced by `to`.
pub fn replace_chars(s: &[char], from: &[char], to: &[char]) -> (res: Vec<char>)
    requires
        from@.len() > 0,
    ensures
        res@ == replace_all(s@, from@, to@),
{
    let mut out: Vec<char> = Vec::new();
    let mut i: usize = 0;
    assert(s@.skip(0) =~= s@);
    while i < s.len()
        invariant
            i <= s@.len(),
            from@.len() > 0,
            replace_all(s@, from@, to@) == out@ + replace_all(s@.skip(i as int), from@, to@),
        decreases s@.len() - i,
    {
        let ghost rest = s@.skip(i as int);
        if matches_at(s, from, i) {
            proof {
                lemma_occurs_skip(s@, from@, i as int, 0);
                assert(rest.skip(from@.len() as int) =~= s@.skip(i + from@.len()));
            }
            let mut k: usize = 0;
            let ghost before = out@;
            while k < to.len()
                invariant
                    k <= to@.len(),
                    out@ == before + to@.take(k as int),
                decreases to@.len() - k,
            {
                out.push(to[k]);
                assert(to@.take(k + 1) =~= to@.take(k as int).push(to@[k as int]));
                k = k + 1;
            }
            assert(to@.take(to@.len() as int) =~= to@);
            assert(out@ + replace_all(s@.skip(i + from@.len()), from@, to@) =~= before + (to@
                + replace_all(rest.skip(from@.len() as int), from@, to@)));
            i = i + from.len();
        } else {
            proof {
                lemma_occurs_skip(s@, from@, i as int, 0);
                assert(rest.drop_first() =~= s@.skip(i + 1));
            }
            let ghost before = out@;
            out.push(s[i]);
            assert(out@ + replace_all(s@.skip(i + 1), from@, to@) =~= before + (seq![rest[0]]
                + replace_all(rest.drop_first(), from@, to@)));
            i = i + 1;
        }
    }
    assert(s@.skip(i as int) =~= Seq::<char>::empty());
    assert(out@ + Seq::<char>::empty() =~= out@);
    out
}

/// `s` with every occurrence of `from` replaced by `to` (`str::replace`).
pub fn replace_str(s: &str, from: &str, to: &str) -> (res: String)
    requires
        from@.len() > 0,
    ensures
        res@ == replace_all(s@, from@, to@),
{
    let a = to_chars(s);
    let b = to_chars(from);
    let c = to_chars(to);
    let r = replace_chars(a.as_slice(), b.as_slice(), c.as_slice());
    string_of(r.as_slice())
}

/// A Unicode `White_Space` character, as `char::is_whitespace`.
pub open spec fn is_whitespace(c: char) -> bool {
    ||| ('\u{9}' <= c && c <= '\u{d}')
    ||| c == ' '
    ||| c == '\u{85}'
    ||| c == '\u{a0}'
    ||| c == '\u{1680}'
    ||| ('\u{2000}' <= c && c <= '\u{200a}')
    ||| c == '\u{2028}'
    ||| c == '\u{2029}'
    ||| c == '\u{202f}'
    ||| c == '\u{205f}'
    ||| c == '\u{3000}'
}

/// Whether `c` is white space (`char::is_whitespace`).
pub fn is_whitespace_char(c: char) -> (r: bool)
    ensures
        r == is_whitespace(c),
{
    ('\u{9}' <= c && c <= '\u{d}') || c == ' ' || c == '\u{85}' || c == '\u{a0}' || c == '\u{1680}'
        || ('\u{2000}' <= c && c <= '\u{200a}') || c == '\u{2028}' || c == '\u{2029}' || c
        == '\u{202f}' || c == '\u{205f}' || c == '\u{3000}'
}

/// `s` without its leading white space.
pub open spec fn trim_start(s: Seq<char>) -> Seq<char>
    decreases s.len(),
{
    if s.len() > 0 && is_whitespace(s[0]) {
        trim_start(s.drop_first())
    } else {
        s
    }
}

/// `s` without its trailing white space.
pub open spec fn trim_end(s: Seq<char>) -> Seq<char>
    decreases s.len(),
{
    if s.len() > 0 && is_whitespace(s.last()) {
        trim_end(s.drop_last())
    } else {
        s
    }
}

/// `s` without leading and trailing white space (`str::trim`).
pub open spec fn trim(s: Seq<char>) -> Seq<char> {
    trim_end(trim_start(s))
}

/// What `trim_start` leaves is a suffix that is empty or starts with a
/// character that is not white space.
pub proof fn lemma_trim_start(s: Seq<char>)
    ensures
        trim_start(s).len() <= s.len(),
        trim_start(s) == s.skip(s.len() - trim_start(s).len()),
        trim_start(s).len() > 0 ==> !is_whitespace(trim_start(s)[0]),
    decreases s.len(),
{
    if s.len() > 0 && is_whitespace(s[0]) {
        lemma_trim_start(s.drop_first());
        assert(s.drop_first().skip(s.drop_first().len() - trim_start(s).len()) =~= s.skip(
            s.len() - trim_start(s).len(),
        ));
    } else {
        assert(s.skip(0) =~= s);
    }
}

/// Every character of `s` is white space.
pub open spec fn all_whitespace(s: Seq<char>) -> bool {
    forall|i: int| 0 <= i < s.len() ==> is_whitespace(#[trigger] s[i])
}

/// `s` is empty or starts and ends with a character that is not white
/// space: trimming leaves it as it is.
pub open spec fn is_trimmed(s: Seq<char>) -> bool {
    s.len() == 0 || (!is_whitespace(s[0]) && !is_whitespace(s.last()))
}

/// What `trim_start` drops is white space.
pub proof fn lemma_trim_start_drops_whitespace(s: Seq<char>)
    ensures
        all_whitespace(s.take(s.len() - trim_start(s).len())),
        trim_start(s).len() == 0 ==> all_whitespace(s),
    decreases s.len(),
{
    lemma_trim_start(s);
    if s.len() > 0 && is_whitespace(s[0]) {
        let t = s.drop_first();
        lemma_trim_start_drops_whitespace(t);
        lemma_trim_start(t);
        let n = s.len() - trim_start(s).len();
        assert forall|i: int| 0 <= i < s.take(n).len() implies is_whitespace(#[trigger] s.take(n)[i]) by {
            if i > 0 {
                assert(s.take(n)[i] == t.take(n - 1)[i - 1]);
            }
        }
        if trim_start(s).len() == 0 {
            assert forall|i: int| 0 <= i < s.len() implies is_whitespace(#[trigger] s[i]) by {
                if i > 0 {
                    assert(s[i] == t[i - 1]);
                }
            }
        }
    }
}

/// What `trim_end` leaves is a prefix that is empty or ends with a
/// character that is not white space; what it drops is white space.
pub proof fn lemma_trim_end(s: Seq<char>)
    ensures
        trim_end(s).len() <= s.len(),
        trim_end(s) == s.take(trim_end(s).len() as int),
        trim_end(s).len() > 0 ==> !is_whitespace(trim_end(s).last()),
        all_whitespace(s.skip(trim_end(s).len() as int)),
        s.len() > 0 && !is_whitespace(s[0]) ==> trim_end(s).len() > 0,
    decreases s.len(),
{
    if s.len() > 0 && is_whitespace(s.last()) {
        let t = s.drop_last();
        lemma_trim_end(t);
        let m = trim_end(s).len() as int;
        assert(t.take(m) =~= s.take(m));
        assert forall|i: int| 0 <= i < s.skip(m).len() implies is_whitespace(#[trigger] s.skip(m)[i]) by {
            if i < t.skip(m).len() {
                assert(s.skip(m)[i] == t.skip(m)[i]);
            } else {
                assert(s.skip(m)[i] == s.last());
            }
        }
        if !is_whitespace(s[0]) {
            assert(s.len() > 1);
            assert(t[0] == s[0]);
        }
    } else {
        assert(s.take(s.len() as int) =~= s);
        assert(s.skip(s.len() as int) =~= Seq::<char>::empty());
    }
}

/// Leading white space before `x` does not change what `trim_start`
/// leaves.
pub proof fn lemma_trim_start_prefix(w: Seq<char>, x: Seq<char>)
    requires
        all_whitespace(w),
    ensures
        trim_start(w + x) == trim_start(x),
    decreases w.len(),
{
    if w.len() == 0 {
        assert(w + x =~= x);
    } else {
        assert((w + x).drop_first() =~= w.drop_first() + x);
        assert(is_whitespace(w[0]));
        lemma_trim_start_prefix(w.drop_first(), x);
    }
}

/// Trailing white space after `x` does not change what `trim_end` leaves.
pub proof fn lemma_trim_end_suffix(x: Seq<char>, w: Seq<char>)
    requires
        all_whitespace(w),
    ensures
        trim_end(x + w) == trim_end(x),
    decreases w.len(),
{
    if w.len() == 0 {
        assert(x + w =~= x);
    } else {
        assert((x + w).drop_last() =~= x + w.drop_last());
        assert(is_whitespace(w.last()));
        lemma_trim_end_suffix(x, w.drop_last());
    }
}

/// `trim_start` of `x + y`, where `x` holds a character that is not white
/// space or `y` starts with one, is `trim_start(x) + y`.
pub proof fn lemma_trim_start_concat(x: Seq<char>, y: Seq<char>)
    requires
        !all_whitespace(x) || (y.len() > 0 && !is_whitespace(y[0])),
    ensures
        trim_start(x + y) == trim_start(x) + y,
    decreases x.len(),
{
    if x.len() == 0 {
        assert(x + y =~= y);
        assert(trim_start(x) + y =~= y);
    } else if is_whitespace(x[0]) {
        assert((x + y).drop_first() =~= x.drop_first() + y);
        if !all_whitespace(x) {
            let i = choose|i: int| 0 <= i < x.len() && !is_whitespace(#[trigger] x[i]);
            assert(x.drop_first()[i - 1] == x[i]);
        }
        lemma_trim_start_concat(x.drop_first(), y);
    } else {
        assert((x + y)[0] == x[0]);
    }
}

/// `trim_end` of `x + y`, where `y` holds a character that is not white
/// space or `x` ends with one, is `x + trim_end(y)`.
pub proof fn lemma_trim_end_concat(x: Seq<char>, y: Seq<char>)
    requires
        !all_whitespace(y) || (x.len() > 0 && !is_whitespace(x.last())),
    ensures
        trim_end(x + y) == x + trim_end(y),
    decreases y.len(),
{
    if y.len() == 0 {
        assert(x + y =~= x);
        assert(x + trim_end(y) =~= x);
    } else if is_whitespace(y.last()) {
        assert((x + y).drop_last() =~= x + y.drop_last());
        if !all_whitespace(y) {
            let i = choose|i: int| 0 <= i < y.len() && !is_whitespace(#[trigger] y[i]);
            assert(i < y.len() - 1);
            assert(y.drop_last()[i] == y[i]);
        }
        lemma_trim_end_concat(x, y.drop_last());
    } else {
        assert((x + y).last() == y.last());
    }
}

/// Trimmed text is trimmed, and trimming it again changes nothing.
pub proof fn lemma_trim_is_trimmed(s: Seq<char>)
    ensures
        is_trimmed(trim(s)),
        trim(trim(s)) == trim(s),
        trim(s).len() == 0 ==> all_whitespace(s),
{
    lemma_trim_start(s);
    lemma_trim_start_drops_whitespace(s);
    let u = trim_start(s);
    lemma_trim_end(u);
    let t = trim(s);
    if t.len() > 0 {
        assert(t[0] == u[0]);
    }
    lemma_trim_fixed(t);
    if t.len() == 0 && u.len() > 0 {
        assert(!is_whitespace(u[0]));
    }
}

/// Trimming trimmed text changes nothing.
pub proof fn lemma_trim_fixed(t: Seq<char>)
    requires
        is_trimmed(t),
    ensures
        trim_start(t) == t,
        trim_end(t) == t,
        trim(t) == t,
{
}

/// The characters of `trim(s)` are characters of `s`.
pub proof fn lemma_trim_within(s: Seq<char>, c: char)
    requires
        forall|i: int| 0 <= i < s.len() ==> s[i] != c,
    ensures
        forall|i: int| 0 <= i < trim(s).len() ==> trim(s)[i] != c,
{
    lemma_trim_start(s);
    let u = trim_start(s);
    lemma_trim_end(u);
    assert forall|i: int| 0 <= i < trim(s).len() implies trim(s)[i] != c by {
        assert(trim(s)[i] == u[i]);
        assert(u[i] == s[s.len() - u.len() + i]);
    }
}

/// The number of leading characters of `s` that are not white space.
pub open spec fn word_len(s: Seq<char>) -> nat
    decreases s.len(),
{
    if s.len() > 0 && !is_whitespace(s[0]) {
        1 + word_len(s.drop_first())
    } else {
        0
    }
}

/// A word never runs past the end.
pub proof fn lemma_word_len(s: Seq<char>)
    ensures
        word_len(s) <= s.len(),
        s.len() > 0 && !is_whitespace(s[0]) ==> word_len(s) >= 1,
    decreases s.len(),
{
    if s.len() > 0 && !is_whitespace(s[0]) {
        lemma_word_len(s.drop_first());
    }
}

/// The maximal runs of non-white-space characters of `s`, in order
/// (`str::split_whitespace`).
pub open spec fn words(s: Seq<char>) -> Seq<Seq<char>>
    decreases s.len(),
{
    let t = trim_start(s);
    if t.len() == 0 {
        Seq::empty()
    } else {
        proof {
            lemma_trim_start(s);
            lemma_word_len(t);
        }
        let n = word_len(t) as int;
        seq![t.take(n)] + words(t.skip(n))
    }
}

/// The sequences of `ws` joined with one space between neighbours.
pub open spec fn join_with_space(ws: Seq<Seq<char>>) -> Seq<char>
    decreases ws.len(),
{
    if ws.len() == 0 {
        Seq::empty()
    } else if ws.len() == 1 {
        ws[0]
    } else {
        join_with_space(ws.drop_last()) + seq![' '] + ws.last()
    }
}

/// `s` with each run of white space collapsed to one space and none at
/// either end (`split_whitespace` joined by `" "`).
pub open spec fn collapse_whitespace(s: Seq<char>) -> Seq<char> {
    join_with_space(words(s))
}

/// The bounds `(a, b)` of `trim(s)` within `s`.
pub fn trim_bounds(s: &[char]) -> (r: (usize, usize))
    ensures
        r.0 <= r.1 <= s@.len(),
        trim(s@) == s@.subrange(r.0 as int, r.1 as int),
{
    let n = s.len();
    let mut a: usize = 0;
    assert(s@.skip(0) =~= s@);
    while a < n && is_whitespace_char(s[a])
        invariant
            a <= n == s@.len(),
            trim_start(s@) == trim_start(s@.skip(a as int)),
        decreases n - a,
    {
        assert(s@.skip(a as int).drop_first() =~= s@.skip(a + 1));
        a = a + 1;
    }
    assert(trim_start(s@) == s@.skip(a as int));
    let mut b: usize = n;
    assert(s@.skip(a as int).take((b - a) as int) =~= s@.skip(a as int));
    while b > a && is_whitespace_char(s[b - 1])
        invariant
            a <= b <= n == s@.len(),
            trim_start(s@) == s@.skip(a as int),
            trim(s@) == trim_end(s@.subrange(a as int, b as int)),
        decreases b,
    {
        assert(s@.subrange(a as int, b as int).drop_last() =~= s@.subrange(a as int, b - 1));
        b = b - 1;
    }
    assert(s@.subrange(a as int, n as int) =~= s@.skip(a as int));
    (a, b)
}

proof fn lemma_join_push(ws: Seq<Seq<char>>, w: Seq<char>)
    ensures
        join_with_space(ws.push(w)) == if ws.len() == 0 {
            w
        } else {
            join_with_space(ws) + seq![' '] + w
        },
{
    assert(ws.push(w).drop_last() =~= ws);
}

/// `s` with its white space collapsed (see `collapse_whitespace`).
pub fn collapse_whitespace_chars(s: &[char]) -> (res: String)
    ensures
        res@ == collapse_whitespace(s@),
{
    let n = s.len();
    let mut out = String::new();
    let mut i: usize = 0;
    let mut first = true;
    let ghost mut acc: Seq<Seq<char>> = Seq::empty();
    assert(s@.skip(0) =~= s@);
    assert(acc + words(s@) =~= words(s@));
    loop
        invariant
            i <= n == s@.len(),
            words(s@) == acc + words(s@.skip(i as int)),
            out@ == join_with_space(acc),
            first == (acc.len() == 0),
        ensures
            out@ == join_with_space(words(s@)),
        decreases n - i,
    {
        let ghost i0 = i;
        while i < n && is_whitespace_char(s[i])
            invariant
                i0 <= i <= n == s@.len(),
                trim_start(s@.skip(i0 as int)) == trim_start(s@.skip(i as int)),
            decreases n - i,
        {
            assert(s@.skip(i as int).drop_first() =~= s@.skip(i + 1));
            i = i + 1;
        }
        if i == n {
            assert(s@.skip(n as int) =~= Seq::<char>::empty());
            assert(words(s@.skip(i0 as int)) =~= Seq::<Seq<char>>::empty());
            assert(acc + Seq::<Seq<char>>::empty() =~= acc);
            break;
        }
        assert(trim_start(s@.skip(i as int)) == s@.skip(i as int));
        let mut j = i;
        assert(s@.skip(i as int).skip(0) =~= s@.skip(i as int));
        while j < n && !is_whitespace_char(s[j])
            invariant
                i <= j <= n == s@.len(),
                word_len(s@.skip(i as int)) == (j - i) + word_len(s@.skip(j as int)),
            decreases n - j,
        {
            assert(s@.skip(j as int).drop_first() =~= s@.skip(j + 1));
            j = j + 1;
        }
        assert(word_len(s@.skip(j as int)) == 0);
        let ghost t = s@.skip(i as int);
        assert(t.take((j - i) as int) =~= s@.subrange(i as int, j as int));
        assert(t.skip((j - i) as int) =~= s@.skip(j as int));
        assert(words(s@.skip(i0 as int)) == seq![s@.subrange(i as int, j as int)] + words(
            s@.skip(j as int),
        ));
        proof {
            lemma_join_push(acc, s@.subrange(i as int, j as int));
        }
        if !first {
            push_char(&mut out, ' ');
        }
        push_range(&mut out, s, i, j);
        proof {
            assert(acc + words(s@.skip(i0 as int)) =~= acc.push(s@.subrange(i as int, j as int))
                + words(s@.skip(j as int)));
            acc = acc.push(s@.subrange(i as int, j as int));
        }
        first = false;
        i = j;
    }
    out
}

/// The sequences of `items` joined with `sep` between neighbours
/// (`join` on a list of strings).
pub open spec fn join_with(items: Seq<Seq<char>>, sep: Seq<char>) -> Seq<char>
    decreases items.len(),
{
    if items.len() == 0 {
        Seq::empty()
    } else if items.len() == 1 {
        items[0]
    } else {
        join_with(items.drop_last(), sep) + sep + items.last()
    }
}

/// The texts of a list of strings.
pub open spec fn texts(items: Seq<String>) -> Seq<Seq<char>> {
    items.map_values(|s: String| s@)
}

/// The strings of `items` joined with `sep` between neighbours.
pub fn join_strings(items: &Vec<String>, sep: &str) -> (res: String)
    ensures
        res@ == join_with(texts(items@), sep@),
{
    let mut out = String::new();
    let mut i: usize = 0;
    while i < items.len()
        invariant
            i <= items@.len(),
            out@ == join_with(texts(items@).take(i as int), sep@),
        decreases items@.len() - i,
    {
        let ghost prev = texts(items@).take(i as int);
        assert(texts(items@).take(i + 1).drop_last() =~= prev);
        assert(texts(items@).take(i + 1).last() == items@[i as int]@);
        if i > 0 {
            out.append(sep);
        } else {
            assert(prev.len() == 0);
        }
        out.append(items[i].as_str());
        i = i + 1;
    }
    assert(texts(items@).take(items@.len() as int) =~= texts(items@));
    out
}

/// `s` without its trailing `c` characters (`str::trim_end_matches` with a
/// character).
pub open spec fn trim_end_char(s: Seq<char>, c: char) -> Seq<char>
    decreases s.len(),
{
    if s.len() > 0 && s.last() == c {
        trim_end_char(s.drop_last(), c)
    } else {
        s
    }
}

/// The length of `s` without its trailing `c` characters.
pub fn trim_end_char_len(s: &[char], c: char) -> (n: usize)
    ensures
        n <= s@.len(),
        trim_end_char(s@, c) == s@.take(n as int),
{
    let mut n = s.len();
    assert(s@.take(n as int) =~= s@);
    while n > 0 && s[n - 1] == c
        invariant
            n <= s@.len(),
            trim_end_char(s@, c) == trim_end_char(s@.take(n as int), c),
        decreases n,
    {
        assert(s@.take(n as int).drop_last() =~= s@.take(n - 1));
        n = n - 1;
    }
    n
}

/// `c` made lower-case where it is an ASCII upper-case letter
/// (`char::to_ascii_lowercase`).
pub open spec fn ascii_lower_char(c: char) -> char {
    if 'A' <= c && c <= 'Z' {
        ((c as u8) + 32) as char
    } else {
        c
    }
}

/// `c` made upper-case where it is an ASCII lower-case letter
/// (`char::to_ascii_uppercase`).
pub open spec fn ascii_upper_char(c: char) -> char {
    if 'a' <= c && c <= 'z' {
        ((c as u8) - 32) as char
    } else {
        c
    }
}

/// Every character of `s` is ASCII.
pub open spec fn is_ascii_text(s: Seq<char>) -> bool {
    forall|i: int| 0 <= i < s.len() ==> (s[i] as u32) < 128
}

/// `s` with its ASCII lower-case letters made upper-case
/// (`str::to_ascii_uppercase`).
pub open spec fn ascii_uppercase(s: Seq<char>) -> Seq<char> {
    s.map_values(|c: char| ascii_upper_char(c))
}

/// `s` with its ASCII upper-case letters made lower-case
/// (`str::to_ascii_lowercase`).
pub open spec fn ascii_lowercase(s: Seq<char>) -> Seq<char> {
    s.map_values(|c: char| ascii_lower_char(c))
}

/// `s` with its ASCII upper-case letters made lower-case.
pub fn ascii_lowercase_chars(s: &[char]) -> (res: Vec<char>)
    ensures
        res@ == ascii_lowercase(s@),
{
    let mut out: Vec<char> = Vec::new();
    let mut i: usize = 0;
    while i < s.len()
        invariant
            i <= s@.len(),
            out@ == ascii_lowercase(s@.take(i as int)),
        decreases s@.len() - i,
    {
        let c = s[i];
        let l = if 'A' <= c && c <= 'Z' {
            ((c as u8) + 32) as char
        } else {
            c
        };
        out.push(l);
        assert(ascii_lowercase(s@.take(i + 1)) =~= ascii_lowercase(s@.take(i as int)).push(
            ascii_lower_char(c),
        ));
        i = i + 1;
    }
    assert(s@.take(s@.len() as int) =~= s@);
    out
}

/// The pieces of `s` between occurrences of `sep`, left to right
/// (`str::split` with a non-empty pattern).
pub open spec fn split(s: Seq<char>, sep: Seq<char>) -> Seq<Seq<char>>
    decreases s.len(),
{
    if sep.len() == 0 {
        seq![s]
    } else {
        match find(s, sep) {
            None => seq![s],
            Some(i) => {
                proof {
                    lemma_find_some(s, sep);
                }
                seq![s.take(i)] + split(s.skip(i + sep.len()), sep)
            },
        }
    }
}

/// `split` yields at least one piece.
pub proof fn lemma_split_nonempty(s: Seq<char>, sep: Seq<char>)
    ensures
        split(s, sep).len() >= 1,
{
}

/// The part of `s` before the first `sep`, or all of `s` (the first piece
/// of `str::split`).
pub open spec fn before_first(s: Seq<char>, sep: Seq<char>) -> Seq<char> {
    match find(s, sep) {
        Some(i) => s.take(i),
        None => s,
    }
}

/// The texts of a list of character vectors.
pub open spec fn char_vecs(v: Seq<Vec<char>>) -> Seq<Seq<char>> {
    v.map_values(|x: Vec<char>| x@)
}

/// A copy of `s[lo..hi]`.
pub fn copy_range(s: &[char], lo: usize, hi: usize) -> (res: Vec<char>)
    requires
        lo <= hi <= s@.len(),
    ensures
        res@ == s@.subrange(lo as int, hi as int),
{
    let mut out: Vec<char> = Vec::new();
    let mut k = lo;
    while k < hi
        invariant
            lo <= k <= hi <= s@.len(),
            out@ == s@.subrange(lo as int, k as int),
        decreases hi - k,
    {
        out.push(s[k]);
        assert(s@.subrange(lo as int, k + 1) =~= s@.subrange(lo as int, k as int).push(s@[k as int]));
        k = k + 1;
    }
    out
}

/// The pieces of `s` between occurrences of `sep`.
pub fn split_chars(s: &[char], sep: &[char]) -> (res: Vec<Vec<char>>)
    requires
        sep@.len() > 0,
    ensures
        char_vecs(res@) == split(s@, sep@),
{
    let n = s.len();
    let mut parts: Vec<Vec<char>> = Vec::new();
    let mut p: usize = 0;
    assert(s@.skip(0) =~= s@);
    assert(char_vecs(parts@) + split(s@, sep@) =~= split(s@, sep@));
    loop
        invariant_except_break
            split(s@, sep@) == char_vecs(parts@) + split(s@.skip(p as int), sep@),
        invariant
            p <= n == s@.len(),
            sep@.len() > 0,
        ensures
            split(s@, sep@) == char_vecs(parts@),
        decreases n - p,
    {
        let ghost rest = s@.skip(p as int);
        let ghost before = char_vecs(parts@);
        match find_from(s, sep, p) {
            None => {
                let piece = copy_range(s, p, n);
                let ghost pv = piece@;
                parts.push(piece);
                assert(pv =~= rest);
                assert(char_vecs(parts@) =~= before.push(pv));
                assert(split(rest, sep@) =~= seq![rest]);
                assert(char_vecs(parts@) =~= before + split(rest, sep@));
                break;
            },
            Some(k) => {
                let piece = copy_range(s, p, k);
                let ghost pv = piece@;
                parts.push(piece);
                proof {
                    assert(rest.take(k - p) =~= pv);
                    assert(rest.skip(k - p + sep@.len()) =~= s@.skip(k + sep@.len()));
                    assert(char_vecs(parts@) =~= before.push(pv));
                    assert(before + split(rest, sep@) =~= char_vecs(parts@) + split(
                        s@.skip(k + sep@.len()),
                        sep@,
                    ));
                }
                p = k + sep.len();
            },
        }
    }
    parts
}

/// The part of `s` before the first `sep`, or all of `s`.
pub fn before_first_chars(s: &[char], sep: &[char]) -> (res: Vec<char>)
    ensures
        res@ == before_first(s@, sep@),
{
    match find_chars(s, sep) {
        Some(i) => {
            let r = copy_range(s, 0, i);
            assert(r@ =~= s@.take(i as int));
            r
        },
        None => {
            let r = copy_range(s, 0, s.len());
            assert(r@ =~= s@);
            r
        },
    }
}

} // verus!
