//! Images in the markdown source: locating an image by its `src` and
//! writing its markup after a resize or an edit of its options.

use vstd::prelude::*;

use crate::html;
use crate::html::html_escape;
use crate::text;
use crate::text::{chars_of, push_char, push_str, string_from_chars};

verus! {

/// `p` occurs in `s` at `i`.
pub open spec fn occurs_at(s: Seq<char>, p: Seq<char>, i: int) -> bool {
    0 <= i && i + p.len() <= s.len() && s.subrange(i, i + p.len()) == p
}

/// The first index from `i` on where `p` occurs in `s`.
pub open spec fn find_from(s: Seq<char>, p: Seq<char>, i: int) -> Option<int>
    decreases s.len() + 1 - i,
{
    if i < 0 || i + p.len() > s.len() {
        None
    } else if occurs_at(s, p, i) {
        Some(i)
    } else {
        find_from(s, p, i + 1)
    }
}

/// The last index at which `p` occurs in `s` (`str::rfind`).
pub open spec fn rfind_in(s: Seq<char>, p: Seq<char>) -> Option<int> {
    last_before(s, p, s.len() - p.len())
}

/// The last index at most `i` at which `p` occurs in `s`.
pub open spec fn last_before(s: Seq<char>, p: Seq<char>, i: int) -> Option<int>
    decreases i + 1,
{
    if i < 0 {
        None
    } else if occurs_at(s, p, i) {
        Some(i)
    } else {
        last_before(s, p, i - 1)
    }
}

/// Whether `p` occurs in `v` at `i`.
fn occurs(v: &Vec<char>, p: &Vec<char>, i: usize) -> (b: bool)
    ensures
        b == occurs_at(v@, p@, i as int),
{
    if p.len() > v.len() || i > v.len() - p.len() {
        return false;
    }
    let mut k: usize = 0;
    while k < p.len()
        invariant
            k <= p.len(),
            i + p.len() <= v.len(),
            forall|j: int| 0 <= j < k ==> v@[i + j] == p@[j],
        decreases p.len() - k,
    {
        if v[i + k] != p[k] {
            assert(v@.subrange(i as int, i + p.len())[k as int] != p@[k as int]);
            return false;
        }
        k = k + 1;
    }
    assert(v@.subrange(i as int, i + p.len()) =~= p@);
    true
}

/// The first index from `i` on where `p` occurs in `v`.
pub(crate) fn find_chars(v: &Vec<char>, p: &Vec<char>, i: usize) -> (r: Option<usize>)
    ensures
        match r {
            Some(k) => find_from(v@, p@, i as int) == Some(k as int),
            None => find_from(v@, p@, i as int) is None,
        },
{
    let mut k = i;
    loop
        invariant
            i <= k,
            find_from(v@, p@, i as int) == find_from(v@, p@, k as int),
        decreases v.len() + 1 - k,
    {
        if p.len() > v.len() || k > v.len() - p.len() {
            return None;
        }
        if occurs(v, p, k) {
            return Some(k);
        }
        if k >= v.len() {
            proof {
                if p@.len() == 0 {
                    assert(v@.subrange(k as int, k as int) =~= p@);
                }
            }
            return None;
        }
        k = k + 1;
    }
}

/// The last index of `v[..end]` at which `p` occurs.
fn rfind_chars(v: &Vec<char>, end: usize, p: &Vec<char>) -> (r: Option<usize>)
    requires
        end <= v.len(),
    ensures
        match r {
            Some(k) => rfind_in(v@.subrange(0, end as int), p@) == Some(k as int),
            None => rfind_in(v@.subrange(0, end as int), p@) is None,
        },
{
    let ghost s = v@.subrange(0, end as int);
    assert(s.len() == end);
    if p.len() > end {
        return None;
    }
    let mut k = end - p.len();
    loop
        invariant
            k + p.len() <= end <= v.len(),
            s == v@.subrange(0, end as int),
            rfind_in(s, p@) == last_before(s, p@, k as int),
        decreases k,
    {
        let hit = occurs(v, p, k);
        assert(hit == occurs_at(s, p@, k as int)) by {
            assert(s.subrange(k as int, k + p.len()) =~= v@.subrange(k as int, k + p.len()));
        }
        if hit {
            return Some(k);
        }
        if k == 0 {
            assert(last_before(s, p@, -1) is None);
            return None;
        }
        k = k - 1;
    }
}

/// Where the markdown image `![alt](src ...)` stands in `t`: (start, length)
/// in characters, if `(src` is first found right after a `]`, a `![` comes
/// before it and a `)` after it.
pub open spec fn markdown_image(t: Seq<char>, src: Seq<char>) -> Option<(int, int)> {
    match find_from(t, seq!['('] + src, 0) {
        Some(b) => if b > 0 && t[b - 1] == ']' {
            match rfind_in(t.subrange(0, b), seq!['!', '[']) {
                Some(bk) => match find_from(t, seq![')'], b + 1) {
                    Some(c) => Some((bk, c + 1 - bk)),
                    None => None,
                },
                None => None,
            }
        } else {
            None
        },
        None => None,
    }
}

/// Where the HTML image with attribute `src=` quoted by `q` stands in `t`:
/// from the last `<img` before the first such attribute to the next `>`.
pub open spec fn html_image(t: Seq<char>, src: Seq<char>, q: char) -> Option<(int, int)> {
    match find_from(t, seq!['s', 'r', 'c', '=', q] + src + seq![q], 0) {
        Some(b) => match rfind_in(t.subrange(0, b), seq!['<', 'i', 'm', 'g']) {
            Some(i) => match find_from(t, seq!['>'], i) {
                Some(c) => Some((i, c + 1 - i)),
                None => None,
            },
            None => None,
        },
        None => None,
    }
}

/// Where the image with `src` stands in `t`, in characters: the markdown
/// form first, then the HTML form with double, then single quotes.
pub open spec fn image_ref(t: Seq<char>, src: Seq<char>) -> Option<(int, int)> {
    if markdown_image(t, src) is Some {
        markdown_image(t, src)
    } else if html_image(t, src, '"') is Some {
        html_image(t, src, '"')
    } else {
        html_image(t, src, '\'')
    }
}

fn html_image_exec(v: &Vec<char>, src: &Vec<char>, q: char) -> (r: Option<(usize, usize)>)
    ensures
        match r {
            Some((a, n)) => html_image(v@, src@, q) == Some((a as int, n as int)) && a + n <= v@.len(),
            None => html_image(v@, src@, q) is None,
        },
{
    let mut needle: Vec<char> = Vec::new();
    needle.push('s');
    needle.push('r');
    needle.push('c');
    needle.push('=');
    needle.push(q);
    let mut k: usize = 0;
    while k < src.len()
        invariant
            k <= src.len(),
            needle@ == seq!['s', 'r', 'c', '=', q] + src@.subrange(0, k as int),
        decreases src.len() - k,
    {
        needle.push(src[k]);
        assert(src@.subrange(0, k + 1) =~= src@.subrange(0, k as int).push(src@[k as int]));
        k = k + 1;
    }
    needle.push(q);
    assert(src@.subrange(0, src.len() as int) =~= src@);
    assert(needle@ =~= seq!['s', 'r', 'c', '=', q] + src@ + seq![q]);
    let b = match find_chars(v, &needle, 0) {
        Some(b) => b,
        None => {
            return None;
        },
    };
    proof {
        lemma_find_from(v@, needle@, 0);
    }
    let mut img: Vec<char> = Vec::new();
    img.push('<');
    img.push('i');
    img.push('m');
    img.push('g');
    assert(img@ =~= seq!['<', 'i', 'm', 'g']);
    let i = match rfind_chars(v, b, &img) {
        Some(i) => i,
        None => {
            return None;
        },
    };
    proof {
        lemma_last_before(v@.subrange(0, b as int), img@, b - 4);
    }
    let mut gt: Vec<char> = Vec::new();
    gt.push('>');
    assert(gt@ =~= seq!['>']);
    match find_chars(v, &gt, i) {
        Some(c) => {
            proof {
                lemma_find_from(v@, gt@, i as int);
            }
            assert(i <= c);
            assert(c + 1 <= v.len());
            Some((i, c + 1 - i))
        },
        None => None,
    }
}

pub proof fn lemma_find_from(s: Seq<char>, p: Seq<char>, i: int)
    requires
        0 <= i,
    ensures
        match find_from(s, p, i) {
            Some(k) => i <= k && k + p.len() <= s.len(),
            None => true,
        },
    decreases s.len() + 1 - i,
{
    if i + p.len() <= s.len() && !occurs_at(s, p, i) {
        lemma_find_from(s, p, i + 1);
    }
}

pub proof fn lemma_last_before(s: Seq<char>, p: Seq<char>, i: int)
    ensures
        match last_before(s, p, i) {
            Some(k) => 0 <= k <= i,
            None => true,
        },
    decreases i + 1,
{
    if i >= 0 && !occurs_at(s, p, i) {
        lemma_last_before(s, p, i - 1);
    }
}

/// Locate the markdown (`![alt](src)`, `![alt](src "title")`) or HTML
/// (`<img … src="src" …>`) form of the image with `src`: the character
/// offset and length of the whole image expression. Only the first
/// occurrence is considered.
pub fn find_image_ref(text: &str, src: &str) -> (r: Option<(usize, usize)>)
    ensures
        match r {
            Some((a, n)) => image_ref(text@, src@) == Some((a as int, n as int)) && a + n <= text@.len(),
            None => image_ref(text@, src@) is None,
        },
{
    let v = chars_of(text);
    let sv = chars_of(src);
    let mut needle: Vec<char> = Vec::new();
    needle.push('(');
    let mut k: usize = 0;
    while k < sv.len()
        invariant
            k <= sv.len(),
            needle@ == seq!['('] + sv@.subrange(0, k as int),
        decreases sv.len() - k,
    {
        needle.push(sv[k]);
        assert(sv@.subrange(0, k + 1) =~= sv@.subrange(0, k as int).push(sv@[k as int]));
        k = k + 1;
    }
    assert(sv@.subrange(0, sv.len() as int) =~= sv@);
    assert(needle@.drop_first() =~= sv@);
    match markdown_image_exec(&v, &needle) {
        Some(found) => {
            return Some(found);
        },
        None => {},
    }
    match html_image_exec(&v, &sv, '"') {
        Some(found) => Some(found),
        None => html_image_exec(&v, &sv, '\''),
    }
}

fn markdown_image_exec(v: &Vec<char>, needle: &Vec<char>) -> (r: Option<(usize, usize)>)
    requires
        needle@.len() > 0,
        needle@[0] == '(',
    ensures
        match r {
            Some((a, n)) => markdown_image(v@, needle@.drop_first()) == Some((a as int, n as int)) && a + n
                <= v@.len(),
            None => markdown_image(v@, needle@.drop_first()) is None,
        },
{
    assert(seq!['('] + needle@.drop_first() =~= needle@);
    let b = match find_chars(v, needle, 0) {
        Some(b) => b,
        None => {
            return None;
        },
    };
    proof {
        lemma_find_from(v@, needle@, 0);
    }
    assert(b + 1 <= v.len());
    if !(b > 0 && v[b - 1] == ']') {
        return None;
    }
    let mut bang: Vec<char> = Vec::new();
    bang.push('!');
    bang.push('[');
    assert(bang@ =~= seq!['!', '[']);
    let bk = match rfind_chars(v, b, &bang) {
        Some(bk) => bk,
        None => {
            return None;
        },
    };
    proof {
        assert(v@.subrange(0, b as int).len() == b);
        lemma_last_before(v@.subrange(0, b as int), bang@, b - 2);
    }
    assert(bk <= b);
    let mut close: Vec<char> = Vec::new();
    close.push(')');
    assert(close@ =~= seq![')']);
    match find_chars(v, &close, b + 1) {
        Some(c) => {
            proof {
                lemma_find_from(v@, close@, b + 1);
            }
            assert(c + 1 <= v.len());
            Some((bk, c + 1 - bk))
        },
        None => None,
    }
}

/// The markup of an image: markdown when no width is set, else an `<img>`
/// with escaped attributes (`alt` only when not empty).
pub open spec fn image_markup(src: Seq<char>, width: Option<Seq<char>>, alt: Seq<char>) -> Seq<char> {
    match width {
        None => "!["@ + alt + "]("@ + src + ")"@,
        Some(w) => {
            let alt_attr = if alt.len() == 0 {
                seq![]
            } else {
                " alt=\""@ + html::html_escaped(alt) + "\""@
            };
            "<img src=\""@ + html::html_escaped(src) + "\""@ + alt_attr + " width=\""@ + html::html_escaped(w)
                + "\">"@
        },
    }
}

/// Markup for an image, preferring the markdown form when no width is
/// set; a width needs the HTML form, CommonMark having no width syntax.
pub fn build_image_markup(src: &str, width: Option<&str>, alt: &str) -> (out: String)
    ensures
        out@ == image_markup(
            src@,
            match width {
                Some(w) => Some(w@),
                None => None,
            },
            alt@,
        ),
{
    let mut out = String::new();
    match width {
        None => {
            push_str(&mut out, "![");
            push_str(&mut out, alt);
            push_str(&mut out, "](");
            push_str(&mut out, src);
            push_str(&mut out, ")");
        },
        Some(w) => {
            push_str(&mut out, "<img src=\"");
            let s = html_escape(src);
            push_str(&mut out, s.as_str());
            push_str(&mut out, "\"");
            if alt.unicode_len() > 0 {
                push_str(&mut out, " alt=\"");
                let a = html_escape(alt);
                push_str(&mut out, a.as_str());
                push_str(&mut out, "\"");
            }
            push_str(&mut out, " width=\"");
            let e = html_escape(w);
            push_str(&mut out, e.as_str());
            push_str(&mut out, "\">");
        },
    }
    out
}

/// The byte offset in `t` of character `k`, or the byte length when there
/// are not that many characters.
pub open spec fn byte_offset(t: Seq<char>, k: int) -> int {
    if k < t.len() {
        text::utf8(t.subrange(0, k)).len() as int
    } else {
        text::utf8(t).len() as int
    }
}

/// The byte offset of character `char_offset` of `text`, or the text's
/// length in bytes when it has fewer characters.
pub fn char_to_byte_offset(text: &str, char_offset: usize) -> (b: usize)
    ensures
        b == byte_offset(text@, char_offset as int),
{
    let v = chars_of(text);
    if char_offset < v.len() {
        let prefix = string_from_chars(&v, 0, char_offset);
        prefix.as_str().as_bytes().len()
    } else {
        text.as_bytes().len()
    }
}


/// Blank-line padding that makes an insertion its own paragraph: none at
/// the start of the text or after a blank line, one newline after a line
/// end, two otherwise.
pub open spec fn pad_before(before: Seq<char>) -> Seq<char> {
    if before.len() == 0 || (before.len() >= 2 && before[before.len() - 1] == '\n' && before[before.len() - 2] == '\n') {
        seq![]
    } else if before[before.len() - 1] == '\n' {
        seq!['\n']
    } else {
        seq!['\n', '\n']
    }
}

/// The padding after an insertion, symmetric to [`pad_before`].
pub open spec fn pad_after(after: Seq<char>) -> Seq<char> {
    if after.len() == 0 || (after.len() >= 2 && after[0] == '\n' && after[1] == '\n') {
        seq![]
    } else if after[0] == '\n' {
        seq!['\n']
    } else {
        seq!['\n', '\n']
    }
}

/// How to move an image within the buffer: remove `remove_len`
/// characters at `remove_start`, then insert `insertion` at character
/// `insert_at` of the text that is left.
#[derive(Debug)]
pub struct ImageMove {
    pub remove_start: usize,
    pub remove_len: usize,
    pub insert_at: usize,
    pub insertion: String,
}

/// The move of the image with `src` in `t` to just before the image with
/// `target` (to the end when `target` is empty or not found), as a
/// paragraph of its own: (remove start, remove length, insert position,
/// inserted text), or `None` when the image is not found.
pub open spec fn image_move(t: Seq<char>, src: Seq<char>, target: Seq<char>) -> Option<(int, int, int, Seq<char>)> {
    match image_ref(t, src) {
        None => None,
        Some((off, len)) => {
            let expr = t.subrange(off, off + len);
            let m = t.subrange(0, off) + t.subrange(off + len, t.len() as int);
            let at = if target.len() == 0 {
                m.len() as int
            } else {
                match image_ref(m, target) {
                    Some((c, _)) => c,
                    None => m.len() as int,
                }
            };
            let before = m.subrange(0, at);
            let after = m.subrange(at, m.len() as int);
            Some((off, len, at, pad_before(before) + expr + pad_after(after)))
        },
    }
}

/// Plan moving the image with `src` to just before the image with
/// `target_src` (to the end of the text when that is empty or not found).
/// The image always lands as its own paragraph, so an inline group of
/// images is split where it is dropped into.
pub fn plan_image_move(text: &str, src: &str, target_src: &str) -> (r: Option<ImageMove>)
    ensures
        match r {
            Some(mv) => image_move(text@, src@, target_src@) == Some(
                (mv.remove_start as int, mv.remove_len as int, mv.insert_at as int, mv.insertion@),
            ),
            None => image_move(text@, src@, target_src@) is None,
        },
{
    let (off, len) = match find_image_ref(text, src) {
        Some(x) => x,
        None => {
            return None;
        },
    };
    let v = chars_of(text);
    let expr = string_from_chars(&v, off, off + len);
    let mut modified = string_from_chars(&v, 0, off);
    let tail = string_from_chars(&v, off + len, v.len());
    push_str(&mut modified, tail.as_str());
    let mv = chars_of(modified.as_str());
    let ghost m = mv@;
    let at: usize = if target_src.unicode_len() == 0 {
        mv.len()
    } else {
        match find_image_ref(modified.as_str(), target_src) {
            Some((c, _)) => c,
            None => mv.len(),
        }
    };
    let n = mv.len();
    let mut insertion = String::new();
    if !(at == 0 || (at >= 2 && mv[at - 1] == '\n' && mv[at - 2] == '\n')) {
        if mv[at - 1] == '\n' {
            push_char(&mut insertion, '\n');
        } else {
            push_char(&mut insertion, '\n');
            push_char(&mut insertion, '\n');
        }
    }
    assert(insertion@ =~= pad_before(m.subrange(0, at as int)));
    push_str(&mut insertion, expr.as_str());
    let ghost after = m.subrange(at as int, n as int);
    if !(at == n || (n - at >= 2 && mv[at] == '\n' && mv[at + 1] == '\n')) {
        if mv[at] == '\n' {
            push_char(&mut insertion, '\n');
        } else {
            push_char(&mut insertion, '\n');
            push_char(&mut insertion, '\n');
        }
    }
    assert(insertion@ =~= pad_before(m.subrange(0, at as int)) + expr@ + pad_after(after));
    Some(ImageMove { remove_start: off, remove_len: len, insert_at: at, insertion })
}

} // verus!
