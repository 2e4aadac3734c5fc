//! Escaping for HTML text and attributes, and percent-encoding for URIs.

use vstd::prelude::*;

use crate::text;
use crate::text::{chars_of, push_char, push_str};

verus! {

/// `s` with every character replaced by `f` of it.
pub open spec fn expand(s: Seq<char>, f: spec_fn(char) -> Seq<char>) -> Seq<char>
    decreases s.len(),
{
    if s.len() == 0 {
        seq![]
    } else {
        expand(s.drop_last(), f) + f(s.last())
    }
}

/// What [`html_escape`] writes for one character.
pub open spec fn html_char(c: char) -> Seq<char> {
    if c == '&' {
        seq!['&', 'a', 'm', 'p', ';']
    } else if c == '<' {
        seq!['&', 'l', 't', ';']
    } else if c == '>' {
        seq!['&', 'g', 't', ';']
    } else if c == '"' {
        seq!['&', 'q', 'u', 'o', 't', ';']
    } else if c == '\'' {
        seq!['&', '#', '3', '9', ';']
    } else {
        seq![c]
    }
}

/// `s` escaped for HTML text and quoted attribute values.
pub open spec fn html_escaped(s: Seq<char>) -> Seq<char> {
    expand(s, |c: char| html_char(c))
}

/// Escape `&`, `<`, `>`, `"` and `'` as HTML entities.
pub fn html_escape(input: &str) -> (out: String)
    ensures
        out@ == html_escaped(input@),
{
    let v = chars_of(input);
    let mut out = String::new();
    let mut i: usize = 0;
    while i < v.len()
        invariant
            i <= v.len(),
            v@ == input@,
            out@ == html_escaped(v@.subrange(0, i as int)),
        decreases v.len() - i,
    {
        let c = v[i];
        assert(v@.subrange(0, i + 1).drop_last() == v@.subrange(0, i as int));
        if c == '&' {
            push_str(&mut out, "&amp;");
            proof { reveal_strlit("&amp;"); }
        } else if c == '<' {
            push_str(&mut out, "&lt;");
            proof { reveal_strlit("&lt;"); }
        } else if c == '>' {
            push_str(&mut out, "&gt;");
            proof { reveal_strlit("&gt;"); }
        } else if c == '"' {
            push_str(&mut out, "&quot;");
            proof { reveal_strlit("&quot;"); }
        } else if c == '\'' {
            push_str(&mut out, "&#39;");
            proof { reveal_strlit("&#39;"); }
        } else {
            push_char(&mut out, c);
        }
        assert(out@ =~= html_escaped(v@.subrange(0, i + 1)));
        i = i + 1;
    }
    assert(v@.subrange(0, v.len() as int) =~= v@);
    out
}

/// A character that cannot open a tag or end a quoted attribute value.
pub open spec fn inert(c: char) -> bool {
    c != '<' && c != '>' && c != '"' && c != '\''
}

/// Escaped HTML holds no `<`, `>`, `"` or `'`: the text cannot open a
/// tag or close an attribute value.
pub proof fn lemma_html_escaped_inert(s: Seq<char>)
    ensures
        forall|k: int| 0 <= k < html_escaped(s).len() ==> inert(#[trigger] html_escaped(s)[k]),
    decreases s.len(),
{
    if s.len() > 0 {
        lemma_html_escaped_inert(s.drop_last());
        let p = html_escaped(s.drop_last());
        let q = html_char(s.last());
        assert(html_escaped(s) == p + q);
        assert forall|k: int| 0 <= k < html_escaped(s).len() implies inert(#[trigger] html_escaped(s)[k]) by {
            if k < p.len() {
                assert(html_escaped(s)[k] == p[k]);
            } else {
                assert(html_escaped(s)[k] == q[k - p.len()]);
            }
        }
    }
}

/// An unreserved URI character: ASCII letters and digits, `-`, `.`, `_`, `~`.
pub open spec fn uri_unreserved(b: u8) -> bool {
    ||| (48 <= b <= 57)
    ||| (65 <= b <= 90)
    ||| (97 <= b <= 122)
    ||| b == 45
    ||| b == 46
    ||| b == 95
    ||| b == 126
}

/// The upper-case hexadecimal digit of `d` (below 16).
pub open spec fn hex_digit(d: u8) -> char {
    if d < 10 {
        (48 + d) as char
    } else {
        (55 + d) as char
    }
}

/// What [`uri_escape`] writes for one UTF-8 byte.
pub open spec fn uri_byte(b: u8, allowed: Seq<char>) -> Seq<char> {
    if uri_unreserved(b) || (b < 128 && allowed.contains(b as char)) {
        seq![b as char]
    } else {
        seq!['%', hex_digit(b / 16), hex_digit(b % 16)]
    }
}

/// The bytes `b` percent-encoded: unreserved bytes and ASCII characters of
/// `allowed` stay, every other byte becomes `%XX`.
pub open spec fn uri_escaped(b: Seq<u8>, allowed: Seq<char>) -> Seq<char>
    decreases b.len(),
{
    if b.len() == 0 {
        seq![]
    } else {
        uri_escaped(b.drop_last(), allowed) + uri_byte(b.last(), allowed)
    }
}

fn hex(d: u8) -> (c: char)
    requires
        d < 16,
    ensures
        c == hex_digit(d),
{
    if d < 10 {
        (48 + d) as char
    } else {
        (55 + d) as char
    }
}

/// Percent-encode `s` for a URI (`g_uri_escape_string` without UTF-8):
/// every byte of its UTF-8 form that is neither unreserved nor an ASCII
/// character of `allowed` becomes `%XX` with upper-case hex digits.
pub fn uri_escape(s: &str, allowed: &str) -> (out: String)
    ensures
        out@ == uri_escaped(text::utf8(s@), allowed@),
{
    let bytes = s.as_bytes();
    let al = chars_of(allowed);
    let mut out = String::new();
    let mut i: usize = 0;
    while i < bytes.len()
        invariant
            i <= bytes.len(),
            bytes@ == text::utf8(s@),
            al@ == allowed@,
            out@ == uri_escaped(bytes@.subrange(0, i as int), allowed@),
        decreases bytes.len() - i,
    {
        let b = bytes[i];
        assert(bytes@.subrange(0, i + 1).drop_last() == bytes@.subrange(0, i as int));
        let unreserved = (48 <= b && b <= 57) || (65 <= b && b <= 90) || (97 <= b && b <= 122)
            || b == 45 || b == 46 || b == 95 || b == 126;
        let mut listed = false;
        if b < 128 {
            let mut k: usize = 0;
            while k < al.len()
                invariant
                    k <= al.len(),
                    b < 128,
                    listed == al@.subrange(0, k as int).contains(b as char),
                decreases al.len() - k,
            {
                if al[k] == b as char {
                    listed = true;
                }
                proof {
                    assert(al@.subrange(0, k + 1) =~= al@.subrange(0, k as int).push(al@[k as int]));
                    if al@.subrange(0, k as int).contains(b as char) {
                        let j = choose|j: int| 0 <= j < k && al@.subrange(0, k as int)[j] == b as char;
                        assert(al@.subrange(0, k + 1)[j] == b as char);
                    }
                    if al@[k as int] == b as char {
                        assert(al@.subrange(0, k + 1)[k as int] == b as char);
                    }
                }
                k = k + 1;
            }
            assert(al@.subrange(0, al.len() as int) =~= al@);
        }
        if unreserved || listed {
            push_char(&mut out, b as char);
        } else {
            push_char(&mut out, '%');
            push_char(&mut out, hex(b / 16));
            push_char(&mut out, hex(b % 16));
        }
        assert(out@ =~= uri_escaped(bytes@.subrange(0, i + 1), allowed@));
        i = i + 1;
    }
    assert(bytes@.subrange(0, bytes.len() as int) =~= bytes@);
    out
}

} // verus!
