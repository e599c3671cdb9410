//! The rules by which a new clipboard text becomes a clip: whether it is
//! taken at all, and which tags it gets.

use vstd::prelude::*;
use vstd::string::*;
use vstd::utf8::*;
use crate::outside::{occurs_in, text_contains, trim_text, trimmed};

verus! {

broadcast use encode_utf8_valid_utf8;

/// Number of bytes of the UTF-8 encoding of a text.
pub open spec fn utf8_len(s: Seq<char>) -> nat {
    encode_utf8(s).len()
}

/// The number of bytes of `s` in UTF-8.
pub fn byte_length(s: &str) -> (r: usize)
    ensures
        r == utf8_len(s@),
{
    s.as_bytes().len()
}

/// Whether a text is empty or holds only white space.
pub fn is_blank(s: &str) -> (r: bool)
    ensures
        r == (trimmed(s@).len() == 0),
{
    let t = trim_text(s);
    t.unicode_len() == 0
}

/// A text read from the clipboard is taken where it differs from the last
/// one taken, is not blank, and is longer than three bytes.
pub open spec fn captures(last: Seq<char>, content: Seq<char>) -> bool {
    content != last && trimmed(content).len() != 0 && utf8_len(content) > 3
}

/// Whether `content` is taken as a new clip after `last`.
pub fn should_capture(last: &String, content: &String) -> (r: bool)
    ensures
        r == captures(last@, content@),
{
    *content != *last && !is_blank(content.as_str()) && byte_length(content.as_str()) > 3
}

/// The tags of a text, in this order: "url" where it holds "http" or "www";
/// "code" where it holds "function", "const" or "let"; "email" where it holds
/// both "@" and "."; "long-text" where it is longer than 200 bytes.
pub open spec fn tags_for(s: Seq<char>) -> Seq<Seq<char>> {
    let a = if occurs_in(s, "http"@) || occurs_in(s, "www"@) {
        seq!["url"@]
    } else {
        Seq::empty()
    };
    let b = if occurs_in(s, "function"@) || occurs_in(s, "const"@) || occurs_in(s, "let"@) {
        a.push("code"@)
    } else {
        a
    };
    let c = if occurs_in(s, "@"@) && occurs_in(s, "."@) {
        b.push("email"@)
    } else {
        b
    };
    if utf8_len(s) > 200 {
        c.push("long-text"@)
    } else {
        c
    }
}

/// The tags of `content`.
pub fn infer_tags(content: &String) -> (r: Vec<String>)
    ensures
        r@.map_values(|t: String| t@) == tags_for(content@),
{
    let s = content.as_str();
    let mut tags: Vec<String> = Vec::new();
    if text_contains(s, "http") || text_contains(s, "www") {
        tags.push(String::from_str("url"));
    }
    if text_contains(s, "function") || text_contains(s, "const") || text_contains(s, "let") {
        tags.push(String::from_str("code"));
    }
    if text_contains(s, "@") && text_contains(s, ".") {
        tags.push(String::from_str("email"));
    }
    if byte_length(s) > 200 {
        tags.push(String::from_str("long-text"));
    }
    assert(tags@.map_values(|t: String| t@) =~= tags_for(content@));
    tags
}

/// Place of the first line feed of `s`, or its length where it has none.
pub open spec fn line_end(s: Seq<char>) -> int
    decreases s.len(),
{
    if s.len() == 0 {
        0
    } else if s[0] == '\n' {
        0
    } else {
        1 + line_end(s.drop_first())
    }
}

/// The first line of `s`: the text before its first line feed, without a
/// carriage return just before that line feed; all of `s` where it has no
/// line feed.
pub open spec fn first_line(s: Seq<char>) -> Seq<char> {
    let p = line_end(s);
    if p < s.len() && p > 0 && s[p - 1] == '\r' {
        s.take(p - 1)
    } else {
        s.take(p)
    }
}

proof fn lemma_line_end(s: Seq<char>)
    ensures
        0 <= line_end(s) <= s.len(),
        line_end(s) < s.len() ==> s[line_end(s)] == '\n',
        forall|i: int| 0 <= i < line_end(s) ==> s[i] != '\n',
    decreases s.len(),
{
    if s.len() > 0 && s[0] != '\n' {
        lemma_line_end(s.drop_first());
        assert forall|i: int| 0 <= i < line_end(s) implies s[i] != '\n' by {
            if i > 0 {
                assert(s[i] == s.drop_first()[i - 1]);
            }
        }
    }
}

proof fn lemma_line_end_unique(s: Seq<char>, p: int)
    requires
        0 <= p <= s.len(),
        p < s.len() ==> s[p] == '\n',
        forall|i: int| 0 <= i < p ==> s[i] != '\n',
    ensures
        line_end(s) == p,
    decreases s.len(),
{
    if s.len() > 0 && p > 0 {
        lemma_line_end_unique(s.drop_first(), p - 1);
    }
}

/// The first line of `s`, as `lines().next()` gives it, or `s` where it has
/// no lines.
pub fn first_line_of(s: &str) -> (r: String)
    ensures
        r@ == first_line(s@),
{
    let n = s.unicode_len();
    let mut p: usize = 0;
    while p < n && s.get_char(p) != '\n'
        invariant
            n == s@.len(),
            p <= n,
            forall|i: int| 0 <= i < p ==> s@[i] != '\n',
        decreases n - p,
    {
        p = p + 1;
    }
    proof {
        lemma_line_end_unique(s@, p as int);
    }
    let end = if p < n && p > 0 && s.get_char(p - 1) == '\r' { p - 1 } else { p };
    let line = s.substring_char(0, end);
    assert(line@ =~= first_line(s@));
    String::from_str(line)
}

/// The largest character boundary of `bytes` at or below `n`.
pub open spec fn boundary_at_most(bytes: Seq<u8>, n: int) -> int
    decreases n,
{
    if n <= 0 {
        0
    } else if is_char_boundary(bytes, n) {
        n
    } else {
        boundary_at_most(bytes, n - 1)
    }
}

/// The summary of a text: where it is longer than 50 bytes, its longest
/// prefix of at most 47 bytes followed by "..."; else its first line.
pub open spec fn summary_of(s: Seq<char>) -> Seq<char> {
    if utf8_len(s) > 50 {
        decode_utf8(encode_utf8(s).take(boundary_at_most(encode_utf8(s), 47))) + "..."@
    } else {
        first_line(s)
    }
}

/// The summary of `content`.
pub fn summarize(content: &String) -> (r: String)
    ensures
        r@ == summary_of(content@),
{
    let s = content.as_str();
    if byte_length(s) > 50 {
        let ghost bytes = encode_utf8(s@);
        let mut cut: usize = 47;
        while cut > 0 && !s.is_char_boundary(cut)
            invariant
                cut <= 47,
                bytes == encode_utf8(s@),
                bytes.len() > 50,
                boundary_at_most(bytes, cut as int) == boundary_at_most(bytes, 47),
            decreases cut,
        {
            cut = cut - 1;
        }
        assert(boundary_at_most(bytes, cut as int) == cut);
        let (head, _tail) = s.split_at(cut);
        proof {
            encode_utf8_decode_utf8(head@);
            assert(bytes.subrange(0, cut as int) =~= bytes.take(cut as int));
        }
        String::from_str(head).concat("...")
    } else {
        first_line_of(s)
    }
}

} // verus!
