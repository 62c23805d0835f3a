//! Escaping for JSON string literals and for form (`x-www-form-urlencoded`)
//! values, with the decoders that undo them.
use vstd::prelude::*;
use crate::text::push_char;
use crate::text::to_chars;

verus! {

/// A control character (Unicode general category Cc), as `char::is_control`.
pub open spec fn is_control(c: char) -> bool {
    (c as u32) <= 0x1f || (0x7f <= (c as u32) && (c as u32) <= 0x9f)
}

/// The lower-case hexadecimal digit for `n` in `0..16`.
pub open spec fn hex_lower(n: int) -> char {
    seq!['0', '1', '2', '3', '4', '5', '6', '7', '8', '9', 'a', 'b', 'c', 'd', 'e', 'f'][n]
}

/// The upper-case hexadecimal digit for `n` in `0..16`.
pub open spec fn hex_upper(n: int) -> char {
    seq!['0', '1', '2', '3', '4', '5', '6', '7', '8', '9', 'A', 'B', 'C', 'D', 'E', 'F'][n]
}

/// The value of a hexadecimal digit of either case.
pub open spec fn hex_value(c: char) -> Option<int> {
    if '0' <= c && c <= '9' {
        Some(c as int - '0' as int)
    } else if 'a' <= c && c <= 'f' {
        Some(c as int - 'a' as int + 10)
    } else if 'A' <= c && c <= 'F' {
        Some(c as int - 'A' as int + 10)
    } else {
        None
    }
}

/// How one character is written inside a JSON string literal.
pub open spec fn json_escape_char(c: char) -> Seq<char> {
    if c == '\\' {
        seq!['\\', '\\']
    } else if c == '"' {
        seq!['\\', '"']
    } else if c == '\n' {
        seq!['\\', 'n']
    } else if c == '\r' {
        seq!['\\', 'r']
    } else if c == '\t' {
        seq!['\\', 't']
    } else if is_control(c) {
        let v = c as int;
        seq![
            '\\',
            'u',
            hex_lower(v / 4096),
            hex_lower((v / 256) % 16),
            hex_lower((v / 16) % 16),
            hex_lower(v % 16),
        ]
    } else {
        seq![c]
    }
}

/// `s` written as the body of a JSON string literal.
pub open spec fn json_escape_spec(s: Seq<char>) -> Seq<char>
    decreases s.len(),
{
    if s.len() == 0 {
        Seq::empty()
    } else {
        json_escape_spec(s.drop_last()) + json_escape_char(s.last())
    }
}

/// The characters that the body `t` of a JSON string literal stands for,
/// or `None` where `t` is not a well-formed body.
pub open spec fn json_unescape(t: Seq<char>) -> Option<Seq<char>>
    decreases t.len(),
{
    if t.len() == 0 {
        Some(Seq::empty())
    } else if t[0] == '"' || is_control(t[0]) {
        None
    } else if t[0] != '\\' {
        match json_unescape(t.drop_first()) {
            Some(r) => Some(seq![t[0]] + r),
            None => None,
        }
    } else if t.len() < 2 {
        None
    } else {
        let e = t[1];
        let simple: Option<char> = if e == '\\' {
            Some('\\')
        } else if e == '"' {
            Some('"')
        } else if e == '/' {
            Some('/')
        } else if e == 'n' {
            Some('\n')
        } else if e == 'r' {
            Some('\r')
        } else if e == 't' {
            Some('\t')
        } else if e == 'b' {
            Some('\u{8}')
        } else if e == 'f' {
            Some('\u{c}')
        } else {
            None
        };
        match simple {
            Some(c) => match json_unescape(t.skip(2)) {
                Some(r) => Some(seq![c] + r),
                None => None,
            },
            None => if e == 'u' && t.len() >= 6 && hex_value(t[2]) is Some && hex_value(t[3]) is Some
                && hex_value(t[4]) is Some && hex_value(t[5]) is Some {
                let v = hex_value(t[2])->0 * 4096 + hex_value(t[3])->0 * 256 + hex_value(t[4])->0
                    * 16 + hex_value(t[5])->0;
                if v < 0xd800 || v > 0xdfff {
                    match json_unescape(t.skip(6)) {
                        Some(r) => Some(seq![(v as u32) as char] + r),
                        None => None,
                    }
                } else {
                    None
                }
            } else {
                None
            },
        }
    }
}

fn hex_lower_exec(n: u32) -> (c: char)
    requires
        n < 16,
    ensures
        c == hex_lower(n as int),
{
    let digits = ['0', '1', '2', '3', '4', '5', '6', '7', '8', '9', 'a', 'b', 'c', 'd', 'e', 'f'];
    assert(digits@ =~= seq!['0', '1', '2', '3', '4', '5', '6', '7', '8', '9', 'a', 'b', 'c', 'd', 'e', 'f']);
    digits[n as usize]
}

fn hex_upper_exec(n: u8) -> (c: char)
    requires
        n < 16,
    ensures
        c == hex_upper(n as int),
{
    let digits = ['0', '1', '2', '3', '4', '5', '6', '7', '8', '9', 'A', 'B', 'C', 'D', 'E', 'F'];
    assert(digits@ =~= seq!['0', '1', '2', '3', '4', '5', '6', '7', '8', '9', 'A', 'B', 'C', 'D', 'E', 'F']);
    digits[n as usize]
}

/// Whether `c` is a control character (`char::is_control`).
pub fn is_control_char(c: char) -> (r: bool)
    ensures
        r == is_control(c),
{
    let v = c as u32;
    v <= 0x1f || (0x7f <= v && v <= 0x9f)
}

fn push_json_escaped(out: &mut String, c: char)
    ensures
        final(out)@ == old(out)@ + json_escape_char(c),
{
    if c == '\\' {
        push_char(out, '\\');
        push_char(out, '\\');
    } else if c == '"' {
        push_char(out, '\\');
        push_char(out, '"');
    } else if c == '\n' {
        push_char(out, '\\');
        push_char(out, 'n');
    } else if c == '\r' {
        push_char(out, '\\');
        push_char(out, 'r');
    } else if c == '\t' {
        push_char(out, '\\');
        push_char(out, 't');
    } else if is_control_char(c) {
        let v = c as u32;
        push_char(out, '\\');
        push_char(out, 'u');
        push_char(out, hex_lower_exec(v / 4096));
        push_char(out, hex_lower_exec((v / 256) % 16));
        push_char(out, hex_lower_exec((v / 16) % 16));
        push_char(out, hex_lower_exec(v % 16));
    } else {
        push_char(out, c);
    }
    assert(final(out)@ =~= old(out)@ + json_escape_char(c));
}

/// Escapes `input` for use inside a JSON string literal: backslash, quote,
/// newline, carriage return and tab get their short escapes, every other
/// control character a `\u` escape with four lower-case hex digits.
pub fn json_escape(input: &str) -> (res: String)
    ensures
        res@ == json_escape_spec(input@),
{
    let s = to_chars(input);
    let mut out = String::new();
    let mut i: usize = 0;
    while i < s.len()
        invariant
            i <= s@.len(),
            s@ == input@,
            out@ == json_escape_spec(s@.take(i as int)),
        decreases s@.len() - i,
    {
        push_json_escaped(&mut out, s[i]);
        assert(s@.take(i + 1).drop_last() =~= s@.take(i as int));
        i = i + 1;
    }
    assert(s@.take(s@.len() as int) =~= s@);
    out
}

/// Escaping distributes over concatenation.
pub proof fn lemma_json_escape_concat(a: Seq<char>, b: Seq<char>)
    ensures
        json_escape_spec(a + b) == json_escape_spec(a) + json_escape_spec(b),
    decreases b.len(),
{
    if b.len() == 0 {
        assert(a + b =~= a);
        assert(json_escape_spec(a) + json_escape_spec(b) =~= json_escape_spec(a));
    } else {
        lemma_json_escape_concat(a, b.drop_last());
        assert((a + b).drop_last() =~= a + b.drop_last());
        assert((a + b).last() == b.last());
        assert(json_escape_spec(a + b) =~= json_escape_spec(a) + json_escape_spec(b));
    }
}

proof fn lemma_json_unescape_char(c: char, rest: Seq<char>, r: Seq<char>)
    requires
        json_unescape(rest) == Some(r),
    ensures
        json_unescape(json_escape_char(c) + rest) == Some(seq![c] + r),
{
    let t = json_escape_char(c) + rest;
    if c == '\\' || c == '"' || c == '\n' || c == '\r' || c == '\t' {
        assert(t.skip(2) =~= rest);
    } else if is_control(c) {
        let v = c as int;
        assert(0 <= v <= 0x9f);
        assert(v / 4096 == 0);
        assert((v / 256) % 16 == 0);
        assert(0 <= (v / 16) % 16 < 16);
        assert(0 <= v % 16 < 16);
        let d2 = (v / 16) % 16;
        let d3 = v % 16;
        assert(hex_value(hex_lower(0)) == Some(0int));
        assert(hex_value(hex_lower(d2)) == Some(d2)) by {
            assert(hex_lower(d2) as int == if d2 < 10 { '0' as int + d2 } else { 'a' as int + d2 - 10 });
        }
        assert(hex_value(hex_lower(d3)) == Some(d3)) by {
            assert(hex_lower(d3) as int == if d3 < 10 { '0' as int + d3 } else { 'a' as int + d3 - 10 });
        }
        assert(t[2] == hex_lower(0));
        assert(t[3] == hex_lower(0));
        assert(t[4] == hex_lower(d2));
        assert(t[5] == hex_lower(d3));
        assert(d2 * 16 + d3 == v);
        assert(t.skip(6) =~= rest);
        vstd::utf8::char_u32_cast(c, c as u32);
    } else {
        assert(t.drop_first() =~= rest);
    }
}

/// Decoding the body of a JSON string literal that `json_escape` wrote gives
/// back the characters that were escaped.
pub proof fn law_json_escape_roundtrip(s: Seq<char>)
    ensures
        json_unescape(json_escape_spec(s)) == Some(s),
    decreases s.len(),
{
    if s.len() == 0 {
    } else {
        let rest = s.drop_first();
        law_json_escape_roundtrip(rest);
        assert(s =~= seq![s[0]] + rest);
        lemma_json_escape_concat(seq![s[0]], rest);
        let one = seq![s[0]];
        assert(one.drop_last() =~= Seq::<char>::empty());
        assert(json_escape_spec(one.drop_last()) =~= Seq::<char>::empty());
        assert(json_escape_spec(one) =~= json_escape_char(s[0]));
        lemma_json_unescape_char(s[0], json_escape_spec(rest), rest);
    }
}

/// A byte that form encoding keeps as it is: ASCII letters, digits and `-_.~`.
pub open spec fn is_unreserved(b: u8) -> bool {
    ||| 65 <= b <= 90
    ||| 97 <= b <= 122
    ||| 48 <= b <= 57
    ||| b == 45
    ||| b == 95
    ||| b == 46
    ||| b == 126
}

/// How one byte is written in a form-encoded value.
pub open spec fn url_encode_byte(b: u8) -> Seq<char> {
    if is_unreserved(b) {
        seq![b as char]
    } else if b == 32 {
        seq!['+']
    } else {
        seq!['%', hex_upper(b as int / 16), hex_upper(b as int % 16)]
    }
}

/// The bytes `bs` written as a form-encoded value.
pub open spec fn url_encode_spec(bs: Seq<u8>) -> Seq<char>
    decreases bs.len(),
{
    if bs.len() == 0 {
        Seq::empty()
    } else {
        url_encode_spec(bs.drop_last()) + url_encode_byte(bs.last())
    }
}

/// The bytes that a form-encoded value `t` stands for, or `None` where `t`
/// is not well formed.
pub open spec fn url_decode(t: Seq<char>) -> Option<Seq<u8>>
    decreases t.len(),
{
    if t.len() == 0 {
        Some(Seq::empty())
    } else if t[0] == '+' {
        match url_decode(t.drop_first()) {
            Some(r) => Some(seq![32u8] + r),
            None => None,
        }
    } else if t[0] == '%' {
        if t.len() >= 3 && hex_value(t[1]) is Some && hex_value(t[2]) is Some {
            match url_decode(t.skip(3)) {
                Some(r) => Some(seq![(hex_value(t[1])->0 * 16 + hex_value(t[2])->0) as u8] + r),
                None => None,
            }
        } else {
            None
        }
    } else if (t[0] as u32) < 128 {
        match url_decode(t.drop_first()) {
            Some(r) => Some(seq![(t[0] as u32) as u8] + r),
            None => None,
        }
    } else {
        None
    }
}

fn push_url_encoded(out: &mut String, b: u8)
    ensures
        final(out)@ == old(out)@ + url_encode_byte(b),
{
    if (65 <= b && b <= 90) || (97 <= b && b <= 122) || (48 <= b && b <= 57) || b == 45 || b == 95
        || b == 46 || b == 126 {
        push_char(out, b as char);
    } else if b == 32 {
        push_char(out, '+');
    } else {
        push_char(out, '%');
        push_char(out, hex_upper_exec(b / 16));
        push_char(out, hex_upper_exec(b % 16));
    }
    assert(final(out)@ =~= old(out)@ + url_encode_byte(b));
}

/// Form-encodes the UTF-8 bytes of `input`: unreserved bytes stay, a space
/// becomes `+`, every other byte `%XX` with upper-case hex digits.
pub fn url_encode(input: &str) -> (res: String)
    ensures
        res@ == url_encode_spec(vstd::utf8::encode_utf8(input@)),
{
    let bytes = input.as_bytes();
    let mut out = String::new();
    let mut i: usize = 0;
    while i < bytes.len()
        invariant
            i <= bytes@.len(),
            bytes@ == vstd::utf8::encode_utf8(input@),
            out@ == url_encode_spec(bytes@.take(i as int)),
        decreases bytes@.len() - i,
    {
        push_url_encoded(&mut out, bytes[i]);
        assert(bytes@.take(i + 1).drop_last() =~= bytes@.take(i as int));
        i = i + 1;
    }
    assert(bytes@.take(bytes@.len() as int) =~= bytes@);
    out
}

/// Form encoding distributes over concatenation.
pub proof fn lemma_url_encode_concat(a: Seq<u8>, b: Seq<u8>)
    ensures
        url_encode_spec(a + b) == url_encode_spec(a) + url_encode_spec(b),
    decreases b.len(),
{
    if b.len() == 0 {
        assert(a + b =~= a);
        assert(url_encode_spec(a) + url_encode_spec(b) =~= url_encode_spec(a));
    } else {
        lemma_url_encode_concat(a, b.drop_last());
        assert((a + b).drop_last() =~= a + b.drop_last());
        assert((a + b).last() == b.last());
        assert(url_encode_spec(a + b) =~= url_encode_spec(a) + url_encode_spec(b));
    }
}

proof fn lemma_hex_upper_value(d: int)
    requires
        0 <= d < 16,
    ensures
        hex_value(hex_upper(d)) == Some(d),
{
    assert(hex_upper(d) as int == if d < 10 { '0' as int + d } else { 'A' as int + d - 10 });
}

proof fn lemma_url_decode_byte(b: u8, rest: Seq<char>, r: Seq<u8>)
    requires
        url_decode(rest) == Some(r),
    ensures
        url_decode(url_encode_byte(b) + rest) == Some(seq![b] + r),
{
    let t = url_encode_byte(b) + rest;
    if is_unreserved(b) {
        assert(t.drop_first() =~= rest);
        assert(((b as char) as u32) as u8 == b);
    } else if b == 32 {
        assert(t.drop_first() =~= rest);
    } else {
        lemma_hex_upper_value(b as int / 16);
        lemma_hex_upper_value(b as int % 16);
        assert(t.skip(3) =~= rest);
    }
}

/// Decoding a value that `url_encode` wrote gives back the UTF-8 bytes of
/// the text that was encoded.
pub proof fn law_url_encode_roundtrip(bs: Seq<u8>)
    ensures
        url_decode(url_encode_spec(bs)) == Some(bs),
    decreases bs.len(),
{
    if bs.len() > 0 {
        let rest = bs.drop_first();
        law_url_encode_roundtrip(rest);
        assert(bs =~= seq![bs[0]] + rest);
        lemma_url_encode_concat(seq![bs[0]], rest);
        let one = seq![bs[0]];
        assert(one.drop_last() =~= Seq::<u8>::empty());
        assert(url_encode_spec(one.drop_last()) =~= Seq::<char>::empty());
        assert(url_encode_spec(one) =~= url_encode_byte(bs[0]));
        lemma_url_decode_byte(bs[0], url_encode_spec(rest), rest);
    }
}

/// Every character that `url_encode` writes is an unreserved ASCII
/// character, `+`, `%` or an upper-case hex digit.
pub open spec fn is_form_safe(c: char) -> bool {
    ||| ('A' <= c && c <= 'Z')
    ||| ('a' <= c && c <= 'z')
    ||| ('0' <= c && c <= '9')
    ||| c == '-' || c == '_' || c == '.' || c == '~' || c == '+' || c == '%'
}

/// Form-encoded output holds only form-safe characters, so it never holds
/// the `&` and `=` that separate form fields.
pub proof fn law_url_encode_safe(bs: Seq<u8>)
    ensures
        forall|k: int| 0 <= k < url_encode_spec(bs).len() ==> is_form_safe(
            #[trigger] url_encode_spec(bs)[k],
        ),
    decreases bs.len(),
{
    if bs.len() > 0 {
        law_url_encode_safe(bs.drop_last());
        let b = bs.last();
        let e = url_encode_byte(b);
        if !is_unreserved(b) && b != 32 {
            assert(0 <= b as int / 16 < 16);
            assert(0 <= b as int % 16 < 16);
        }
        assert(forall|k: int| 0 <= k < e.len() ==> is_form_safe(#[trigger] e[k]));
        let p = url_encode_spec(bs.drop_last());
        assert forall|k: int| 0 <= k < url_encode_spec(bs).len() implies is_form_safe(
            #[trigger] url_encode_spec(bs)[k],
        ) by {
            if k < p.len() {
                assert(url_encode_spec(bs)[k] == p[k]);
            } else {
                assert(url_encode_spec(bs)[k] == e[k - p.len()]);
            }
        }
    }
}

} // verus!
