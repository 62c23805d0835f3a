//! Turning fragments of HTML into plain text.
use vstd::prelude::*;
use crate::text::{
    collapse_whitespace, collapse_whitespace_chars, occurs_at, contains, contains_chars, find, find_chars,
    push_char, replace_all, replace_chars, rfind, rfind_before, starts_with, starts_with_chars,
    string_of, to_chars,
};

verus! {

/// The characters of `s` outside `<...>` tags, where `in_tag` says whether
/// `s` starts inside a tag.
pub open spec fn strip_tags_from(s: Seq<char>, in_tag: bool) -> Seq<char>
    decreases s.len(),
{
    if s.len() == 0 {
        Seq::empty()
    } else if s[0] == '<' {
        strip_tags_from(s.drop_first(), true)
    } else if s[0] == '>' {
        strip_tags_from(s.drop_first(), false)
    } else if !in_tag {
        seq![s[0]] + strip_tags_from(s.drop_first(), false)
    } else {
        strip_tags_from(s.drop_first(), true)
    }
}

/// The characters of `s` outside `<...>` tags; `<` and `>` themselves are
/// dropped.
pub open spec fn strip_tags_spec(s: Seq<char>) -> Seq<char> {
    strip_tags_from(s, false)
}

fn strip_tags_chars(s: &[char]) -> (res: String)
    ensures
        res@ == strip_tags_spec(s@),
{
    let mut out = String::new();
    let mut in_tag = false;
    let mut i: usize = 0;
    assert(s@.skip(0) =~= s@);
    while i < s.len()
        invariant
            i <= s@.len(),
            strip_tags_spec(s@) == out@ + strip_tags_from(s@.skip(i as int), in_tag),
        decreases s@.len() - i,
    {
        let ch = s[i];
        let ghost before = out@;
        let ghost was = in_tag;
        assert(s@.skip(i as int).drop_first() =~= s@.skip(i + 1));
        if ch == '<' {
            in_tag = true;
        } else if ch == '>' {
            in_tag = false;
        } else if !in_tag {
            push_char(&mut out, ch);
            assert(before + strip_tags_from(s@.skip(i as int), was) =~= out@ + strip_tags_from(
                s@.skip(i + 1),
                in_tag,
            ));
        }
        i = i + 1;
    }
    assert(s@.skip(i as int) =~= Seq::<char>::empty());
    assert(out@ + Seq::<char>::empty() =~= out@);
    out
}

/// Removes every `<...>` tag from `input`.
pub fn strip_tags(input: &str) -> (res: String)
    ensures
        res@ == strip_tags_spec(input@),
{
    let s = to_chars(input);
    strip_tags_chars(s.as_slice())
}

/// `s` with the entities `&amp;`, `&quot;`, `&#039;`, `&lt;`, `&gt;` and
/// `&nbsp;` replaced, one entity after the other in that order.
pub open spec fn html_unescape_spec(s: Seq<char>) -> Seq<char> {
    let a = replace_all(s, "&amp;"@, "&"@);
    let b = replace_all(a, "&quot;"@, "\""@);
    let c = replace_all(b, "&#039;"@, "'"@);
    let d = replace_all(c, "&lt;"@, "<"@);
    let e = replace_all(d, "&gt;"@, ">"@);
    replace_all(e, "&nbsp;"@, " "@)
}

fn html_unescape_chars(s: &[char]) -> (res: Vec<char>)
    ensures
        res@ == html_unescape_spec(s@),
{
    proof {
        reveal_strlit("&amp;");
        reveal_strlit("&quot;");
        reveal_strlit("&#039;");
        reveal_strlit("&lt;");
        reveal_strlit("&gt;");
        reveal_strlit("&nbsp;");
    }
    let a = replace_chars(s, to_chars("&amp;").as_slice(), to_chars("&").as_slice());
    let b = replace_chars(a.as_slice(), to_chars("&quot;").as_slice(), to_chars("\"").as_slice());
    let c = replace_chars(b.as_slice(), to_chars("&#039;").as_slice(), to_chars("'").as_slice());
    let d = replace_chars(c.as_slice(), to_chars("&lt;").as_slice(), to_chars("<").as_slice());
    let e = replace_chars(d.as_slice(), to_chars("&gt;").as_slice(), to_chars(">").as_slice());
    replace_chars(e.as_slice(), to_chars("&nbsp;").as_slice(), to_chars(" ").as_slice())
}

/// Replaces the HTML entities `&amp;`, `&quot;`, `&#039;`, `&lt;`, `&gt;`
/// and `&nbsp;` in `input`, in that order.
pub fn html_unescape(input: &str) -> (res: String)
    ensures
        res@ == html_unescape_spec(input@),
{
    let s = to_chars(input);
    let r = html_unescape_chars(s.as_slice());
    string_of(r.as_slice())
}

/// The part of a table cell that `clean_html` keeps: after the last
/// `</span>` where the cell holds a `w-hidden` span, else after the first
/// `>` where the cell starts with a space or holds a `>`, else all of it.
pub open spec fn visible_part(s: Seq<char>) -> Seq<char> {
    if contains(s, "w-hidden"@) && contains(s, "</span>"@) {
        match rfind(s, "</span>"@) {
            Some(k) => s.skip(k + 7),
            None => s,
        }
    } else if starts_with(s, " "@) || contains(s, ">"@) {
        match find(s, ">"@) {
            Some(k) => s.skip(k + 1),
            None => s,
        }
    } else {
        s
    }
}

/// The visible text of a table cell: the visible part, without tags, with
/// entities replaced and white space collapsed.
pub open spec fn clean_html_spec(s: Seq<char>) -> Seq<char> {
    collapse_whitespace(html_unescape_spec(strip_tags_spec(visible_part(s))))
}

/// The visible text of the HTML fragment `input` (see `clean_html_spec`).
pub fn clean_html(input: &str) -> (res: String)
    ensures
        res@ == clean_html_spec(input@),
{
    proof {
        reveal_strlit("w-hidden");
        reveal_strlit("</span>");
        reveal_strlit(" ");
        reveal_strlit(">");
    }
    let s = to_chars(input);
    let hidden = to_chars("w-hidden");
    let span_end = to_chars("</span>");
    let space = to_chars(" ");
    let gt = to_chars(">");
    let n = s.len();
    let mut lo: usize = 0;
    if contains_chars(s.as_slice(), hidden.as_slice()) && contains_chars(
        s.as_slice(),
        span_end.as_slice(),
    ) {
        match rfind_before(s.as_slice(), span_end.as_slice(), s.len()) {
            Some(k) => {
                lo = k + 7;
            },
            None => {},
        }
    } else if starts_with_chars(s.as_slice(), space.as_slice()) || contains_chars(
        s.as_slice(),
        gt.as_slice(),
    ) {
        match find_chars(s.as_slice(), gt.as_slice()) {
            Some(k) => {
                assert(gt@.len() == 1);
                assert(occurs_at(s@, gt@, k as int));
                lo = k + 1;
            },
            None => {},
        }
    }
    assert(s@.take(s@.len() as int) =~= s@);
    assert(s@.skip(0) =~= s@);
    let mut visible: Vec<char> = Vec::new();
    let mut k = lo;
    while k < s.len()
        invariant
            lo <= k <= s@.len(),
            visible@ == s@.subrange(lo as int, k as int),
        decreases s@.len() - k,
    {
        visible.push(s[k]);
        assert(s@.subrange(lo as int, k + 1) =~= s@.subrange(lo as int, k as int).push(s@[k as int]));
        k = k + 1;
    }
    assert(visible@ =~= visible_part(s@));
    let stripped = strip_tags_chars(visible.as_slice());
    let stripped_chars = to_chars(stripped.as_str());
    let unescaped = html_unescape_chars(stripped_chars.as_slice());
    collapse_whitespace_chars(unescaped.as_slice())
}

/// Text without tags holds neither `<` nor `>`.
pub proof fn law_strip_tags_no_brackets(s: Seq<char>, in_tag: bool)
    ensures
        forall|k: int| 0 <= k < strip_tags_from(s, in_tag).len() ==> #[trigger] strip_tags_from(
            s,
            in_tag,
        )[k] != '<' && strip_tags_from(s, in_tag)[k] != '>',
    decreases s.len(),
{
    if s.len() > 0 {
        let t = s.drop_first();
        let res = strip_tags_from(s, in_tag);
        law_strip_tags_no_brackets(t, true);
        law_strip_tags_no_brackets(t, false);
        if s[0] == '<' {
            assert(res == strip_tags_from(t, true));
        } else if s[0] == '>' {
            assert(res == strip_tags_from(t, false));
        } else if !in_tag {
            let r = strip_tags_from(t, false);
            assert(res == seq![s[0]] + r);
            assert forall|k: int| 0 <= k < res.len() implies #[trigger] res[k] != '<' && res[k]
                != '>' by {
                if k > 0 {
                    assert(res[k] == r[k - 1]);
                }
            }
        } else {
            assert(res == strip_tags_from(t, true));
        }
    }
}

} // verus!
