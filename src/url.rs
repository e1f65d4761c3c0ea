use vstd::prelude::*;

use crate::chars::{chars_of, string_of};

verus! {

/// The scheme and host that relative links on the site are resolved against.
pub const SITE_ORIGIN: &'static str = "https://www.vendetunave.co";

/// Characters that stand for themselves in an encoded query.
pub open spec fn is_unreserved(c: char) -> bool {
    ('A' <= c && c <= 'Z') || ('a' <= c && c <= 'z') || ('0' <= c && c <= '9') || c == '-'
        || c == '_' || c == '.' || c == '~'
}

/// The UTF-8 encoding of `c`.
pub open spec fn utf8_bytes(c: char) -> Seq<u8> {
    let v = c as u32;
    if v < 0x80 {
        seq![v as u8]
    } else if v < 0x800 {
        seq![(0xC0 + v / 64) as u8, (0x80 + v % 64) as u8]
    } else if v < 0x10000 {
        seq![(0xE0 + v / 4096) as u8, (0x80 + (v / 64) % 64) as u8, (0x80 + v % 64) as u8]
    } else {
        seq![
            (0xF0 + v / 262144) as u8,
            (0x80 + (v / 4096) % 64) as u8,
            (0x80 + (v / 64) % 64) as u8,
            (0x80 + v % 64) as u8,
        ]
    }
}

/// The upper-case hexadecimal digit of `n`, for `n < 16`.
pub open spec fn hex_digit(n: u8) -> char {
    if n < 10 {
        (48 + n) as u8 as char
    } else {
        (55 + n) as u8 as char
    }
}

/// `%XX` for each byte, in order.
pub open spec fn percent_bytes(b: Seq<u8>) -> Seq<char>
    decreases b.len(),
{
    if b.len() == 0 {
        Seq::empty()
    } else {
        percent_bytes(b.drop_last()) + seq!['%', hex_digit(b.last() / 16), hex_digit(b.last() % 16)]
    }
}

/// How one character of a query is written in the encoded query.
pub open spec fn encode_char(c: char) -> Seq<char> {
    if is_unreserved(c) {
        seq![c]
    } else if c == ' ' {
        seq!['+']
    } else {
        percent_bytes(utf8_bytes(c))
    }
}

/// The encoded form of a whole query: each character encoded in turn.
pub open spec fn encode_query(s: Seq<char>) -> Seq<char>
    decreases s.len(),
{
    if s.len() == 0 {
        Seq::empty()
    } else {
        encode_query(s.drop_last()) + encode_char(s.last())
    }
}

fn hex_digit_exec(n: u8) -> (r: char)
    requires
        n < 16,
    ensures
        r == hex_digit(n),
{
    if n < 10 {
        (48 + n) as char
    } else {
        (55 + n) as char
    }
}

fn utf8_bytes_exec(c: char) -> (r: Vec<u8>)
    ensures
        r@ == utf8_bytes(c),
{
    let v: u32 = c as u32;
    let r = if v < 0x80 {
        vec![v as u8]
    } else if v < 0x800 {
        vec![(0xC0 + v / 64) as u8, (0x80 + v % 64) as u8]
    } else if v < 0x10000 {
        vec![(0xE0 + v / 4096) as u8, (0x80 + (v / 64) % 64) as u8, (0x80 + v % 64) as u8]
    } else {
        vec![
            (0xF0 + v / 262144) as u8,
            (0x80 + (v / 4096) % 64) as u8,
            (0x80 + (v / 64) % 64) as u8,
            (0x80 + v % 64) as u8,
        ]
    };
    assert(r@ =~= utf8_bytes(c));
    r
}

fn push_encoded(out: &mut Vec<char>, c: char)
    ensures
        final(out)@ == old(out)@ + encode_char(c),
{
    if ('A' <= c && c <= 'Z') || ('a' <= c && c <= 'z') || ('0' <= c && c <= '9') || c == '-'
        || c == '_' || c == '.' || c == '~' {
        out.push(c);
        assert(out@ =~= old(out)@ + encode_char(c));
    } else if c == ' ' {
        out.push('+');
        assert(out@ =~= old(out)@ + encode_char(c));
    } else {
        let bytes = utf8_bytes_exec(c);
        let ghost start = out@;
        let mut i: usize = 0;
        while i < bytes.len()
            invariant
                i <= bytes@.len(),
                out@ == start + percent_bytes(bytes@.subrange(0, i as int)),
            decreases bytes@.len() - i,
        {
            let b = bytes[i];
            out.push('%');
            out.push(hex_digit_exec(b / 16));
            out.push(hex_digit_exec(b % 16));
            proof {
                let pre = bytes@.subrange(0, i as int);
                let post = bytes@.subrange(0, i + 1);
                assert(post.drop_last() =~= pre);
                assert(out@ =~= start + percent_bytes(post));
            }
            i = i + 1;
        }
        assert(bytes@.subrange(0, bytes@.len() as int) =~= bytes@);
    }
}

/// Encodes a search query for the query string of a URL: letters, digits and
/// `-_.~` stay, a space becomes `+`, and every other character becomes `%XX`
/// for each byte of its UTF-8 encoding, with upper-case hex digits.
pub fn url_encode(s: &str) -> (r: String)
    ensures
        r@ == encode_query(s@),
{
    let cs = chars_of(s);
    let mut out: Vec<char> = Vec::new();
    let mut i: usize = 0;
    while i < cs.len()
        invariant
            i <= cs@.len(),
            cs@ == s@,
            out@ == encode_query(cs@.subrange(0, i as int)),
        decreases cs@.len() - i,
    {
        push_encoded(&mut out, cs[i]);
        proof {
            assert(cs@.subrange(0, i + 1).drop_last() =~= cs@.subrange(0, i as int));
        }
        i = i + 1;
    }
    assert(cs@.subrange(0, cs@.len() as int) =~= cs@);
    string_of(&out)
}

/// Whether `s` begins with `p`.
pub open spec fn has_prefix(s: Seq<char>, p: Seq<char>) -> bool {
    p.len() <= s.len() && s.subrange(0, p.len() as int) == p
}

/// Whether a link begins with an HTTP or HTTPS scheme.
pub open spec fn has_http_scheme(href: Seq<char>) -> bool {
    has_prefix(href, seq!['h', 't', 't', 'p', ':', '/', '/']) || has_prefix(
        href,
        seq!['h', 't', 't', 'p', 's', ':', '/', '/'],
    )
}

/// The absolute URL of a link: a link with an HTTP(S) scheme as it is, anything
/// else appended to the site's origin with no change to its slashes.
pub open spec fn resolve_href(href: Seq<char>) -> Seq<char> {
    if has_http_scheme(href) {
        href
    } else {
        SITE_ORIGIN@ + href
    }
}

/// Whether the characters `cs` begin with those of `p`.
fn starts_with_chars(cs: &Vec<char>, p: &str) -> (r: bool)
    ensures
        r == has_prefix(cs@, p@),
{
    let ps = chars_of(p);
    if ps.len() > cs.len() {
        return false;
    }
    let mut i: usize = 0;
    while i < ps.len()
        invariant
            i <= ps@.len(),
            ps@.len() <= cs@.len(),
            ps@ == p@,
            forall|j: int| 0 <= j < i ==> cs@[j] == ps@[j],
        decreases ps@.len() - i,
    {
        if cs[i] != ps[i] {
            assert(cs@.subrange(0, ps@.len() as int)[i as int] != p@[i as int]);
            return false;
        }
        i = i + 1;
    }
    assert(cs@.subrange(0, ps@.len() as int) =~= p@);
    true
}

/// Makes the `href` of a link absolute against the site's origin.
pub fn absolute_url(href: &str) -> (r: String)
    ensures
        r@ == resolve_href(href@),
{
    let cs = chars_of(href);
    let is_http = starts_with_chars(&cs, "http://") || starts_with_chars(&cs, "https://");
    proof {
        reveal_strlit("http://");
        reveal_strlit("https://");
        assert("http://"@ =~= seq!['h', 't', 't', 'p', ':', '/', '/']);
        assert("https://"@ =~= seq!['h', 't', 't', 'p', 's', ':', '/', '/']);
    }
    if is_http {
        string_of(&cs)
    } else {
        let mut out = chars_of(SITE_ORIGIN);
        let ghost start = out@;
        let mut i: usize = 0;
        while i < cs.len()
            invariant
                i <= cs@.len(),
                out@ == start + cs@.subrange(0, i as int),
            decreases cs@.len() - i,
        {
            out.push(cs[i]);
            assert(out@ =~= start + cs@.subrange(0, i + 1));
            i = i + 1;
        }
        assert(cs@.subrange(0, cs@.len() as int) =~= cs@);
        string_of(&out)
    }
}

} // verus!
