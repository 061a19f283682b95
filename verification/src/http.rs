use vstd::prelude::*;

use crate::text::{
    is_ws, append_range, chars_of, contains, contains_chars, find, find_chars, find_from, from_utf8_lossy, lemma_find,
    lemma_find_from_skip, lines, lowercase, match_at, matches_at, owned, slice_range, split_lines,
    starts_with, string_of, to_lowercase, trim, trim_range, utf8_lossy,
};

verus! {

// ---------------------------------------------------------------------------
// Hexadecimal sizes (`usize::from_str_radix(_, 16)`)
// ---------------------------------------------------------------------------

/// An ASCII hexadecimal digit, either case.
pub open spec fn is_hex_digit(c: char) -> bool {
    ('0' <= c && c <= '9') || ('a' <= c && c <= 'f') || ('A' <= c && c <= 'F')
}

/// The value of a hexadecimal digit.
pub open spec fn hex_digit_value(c: char) -> nat {
    if '0' <= c && c <= '9' {
        (c as int - '0' as int) as nat
    } else if 'a' <= c && c <= 'f' {
        (c as int - 'a' as int + 10) as nat
    } else {
        (c as int - 'A' as int + 10) as nat
    }
}

/// The number that a string of hexadecimal digits stands for.
pub open spec fn hex_value(d: Seq<char>) -> nat
    decreases d.len(),
{
    if d.len() == 0 {
        0
    } else {
        hex_value(d.drop_last()) * 16 + hex_digit_value(d.last())
    }
}

/// Every character is a hexadecimal digit.
pub open spec fn all_hex(d: Seq<char>) -> bool {
    forall|i: int| 0 <= i < d.len() ==> is_hex_digit(#[trigger] d[i])
}

/// What `usize::from_str_radix(s, 16)` accepts: an optional `+` followed by
/// at least one hexadecimal digit, the value fitting in `usize`.
pub open spec fn radix16(s: Seq<char>) -> Option<usize> {
    let d = if s.len() >= 2 && s[0] == '+' {
        s.drop_first()
    } else {
        s
    };
    if d.len() == 0 || !all_hex(d) || hex_value(d) > usize::MAX {
        None
    } else {
        Some(hex_value(d) as usize)
    }
}

/// A prefix of a hexadecimal number is worth no more than the number.
pub proof fn lemma_hex_value_prefix(d: Seq<char>, j: int)
    requires
        0 <= j <= d.len(),
    ensures
        hex_value(d.take(j)) <= hex_value(d),
    decreases d.len(),
{
    if j < d.len() {
        lemma_hex_value_prefix(d.drop_last(), j);
        assert(d.drop_last().take(j) =~= d.take(j));
    } else {
        assert(d.take(j) =~= d);
    }
}

fn hex_digit(c: char) -> (r: Option<u8>)
    ensures
        match r {
            Some(v) => is_hex_digit(c) && v == hex_digit_value(c),
            None => !is_hex_digit(c),
        },
{
    if '0' <= c && c <= '9' {
        Some(((c as u32) - ('0' as u32)) as u8)
    } else if 'a' <= c && c <= 'f' {
        Some(((c as u32) - ('a' as u32) + 10) as u8)
    } else if 'A' <= c && c <= 'F' {
        Some(((c as u32) - ('A' as u32) + 10) as u8)
    } else {
        None
    }
}

/// `usize::from_str_radix(s[lo..hi], 16)`, with `None` for every error.
pub fn parse_radix16(s: &[char], lo: usize, hi: usize) -> (r: Option<usize>)
    requires
        lo <= hi <= s@.len(),
    ensures
        r == radix16(s@.subrange(lo as int, hi as int)),
{
    let ghost t = s@.subrange(lo as int, hi as int);
    let start = if hi - lo >= 2 && s[lo] == '+' {
        lo + 1
    } else {
        lo
    };
    let ghost d = s@.subrange(start as int, hi as int);
    proof {
        if hi - lo >= 2 && s@[lo as int] == '+' {
            assert(t[0] == s@[lo as int]);
            assert(t.drop_first() =~= d);
        } else {
            assert(t =~= d);
        }
    }
    if start == hi {
        return None;
    }
    let mut acc: usize = 0;
    let mut i = start;
    proof {
        assert(d.take(0) =~= Seq::<char>::empty());
    }
    while i < hi
        invariant
            lo <= start <= i <= hi <= s@.len(),
            t == s@.subrange(lo as int, hi as int),
            d == s@.subrange(start as int, hi as int),
            d.len() > 0,
            d == (if t.len() >= 2 && t[0] == '+' {
                t.drop_first()
            } else {
                t
            }),
            forall|k: int| 0 <= k < i - start ==> is_hex_digit(#[trigger] d[k]),
            acc == hex_value(d.take(i - start)),
        decreases hi - i,
    {
        match hex_digit(s[i]) {
            None => {
                proof {
                    assert(d[i - start] == s@[i as int]);
                    assert(!is_hex_digit(d[i - start]));
                }
                return None;
            },
            Some(v) => {
                let next: u128 = (acc as u128) * 16 + (v as u128);
                proof {
                    assert(d.take(i - start + 1).drop_last() =~= d.take(i - start));
                    assert(d[i - start] == s@[i as int]);
                    assert(d.take(i - start + 1).last() == d[i - start]);
                    assert(hex_value(d.take(i - start + 1)) == next);
                }
                if next > usize::MAX as u128 {
                    proof {
                        lemma_hex_value_prefix(d, i - start + 1);
                        if !all_hex(d) {
                        }
                    }
                    return None;
                }
                acc = next as usize;
                i = i + 1;
            },
        }
    }
    proof {
        assert(d.take(i - start) =~= d);
    }
    Some(acc)
}

// ---------------------------------------------------------------------------
// UTF-8 lengths
// ---------------------------------------------------------------------------

/// Number of bytes of the UTF-8 encoding of `c` (`char::len_utf8`).
pub open spec fn utf8_width(c: char) -> nat {
    if (c as int) < 0x80 {
        1
    } else if (c as int) < 0x800 {
        2
    } else if (c as int) < 0x10000 {
        3
    } else {
        4
    }
}

/// Number of bytes of the UTF-8 encoding of `s` (`str::len`).
pub open spec fn utf8_len(s: Seq<char>) -> nat
    decreases s.len(),
{
    if s.len() == 0 {
        0
    } else {
        utf8_width(s[0]) + utf8_len(s.drop_first())
    }
}

/// The number of leading characters of `s` whose encoding is exactly `n`
/// bytes long, or `None` when byte `n` falls inside a character (or past the
/// end).
pub open spec fn char_cut(s: Seq<char>, n: nat) -> Option<int>
    decreases s.len(),
{
    if n == 0 {
        Some(0)
    } else if s.len() == 0 || utf8_width(s[0]) > n {
        None
    } else {
        match char_cut(s.drop_first(), (n - utf8_width(s[0])) as nat) {
            Some(k) => Some(k + 1),
            None => None,
        }
    }
}

/// Where `char_cut` finds a cut, the characters before it take exactly `n`
/// bytes.
pub proof fn lemma_char_cut(s: Seq<char>, n: nat)
    ensures
        char_cut(s, n) matches Some(k) ==> 0 <= k <= s.len() && utf8_len(s.take(k)) == n,
    decreases s.len(),
{
    if n > 0 && s.len() > 0 && utf8_width(s[0]) <= n {
        lemma_char_cut(s.drop_first(), (n - utf8_width(s[0])) as nat);
        if let Some(k) = char_cut(s.drop_first(), (n - utf8_width(s[0])) as nat) {
            assert(s.take(k + 1).drop_first() =~= s.drop_first().take(k));
        }
    } else if n == 0 {
        assert(s.take(0).len() == 0);
    }
}

fn char_width(c: char) -> (r: usize)
    ensures
        r == utf8_width(c),
        1 <= r <= 4,
{
    let v = c as u32;
    if v < 0x80 {
        1
    } else if v < 0x800 {
        2
    } else if v < 0x10000 {
        3
    } else {
        4
    }
}

// ---------------------------------------------------------------------------
// Chunked transfer encoding
// ---------------------------------------------------------------------------

/// The line break of HTTP.
pub open spec fn crlf() -> Seq<char> {
    seq!['\r', '\n']
}

/// `s` without one leading CRLF, if it has one.
pub open spec fn strip_crlf(s: Seq<char>) -> Seq<char> {
    if starts_with(s, crlf()) {
        s.skip(2)
    } else {
        s
    }
}

/// `out` before the decoded rest, if the rest decodes.
pub open spec fn prepend(out: Seq<char>, rest: Option<Seq<char>>) -> Option<Seq<char>> {
    match rest {
        Some(t) => Some(out + t),
        None => None,
    }
}

/// The payload of a chunked body, read chunk by chunk: a size line (hex, with
/// surrounding white space allowed), then that many bytes, then an optional
/// CRLF. Reading stops at a zero size, at a size line that is not a number,
/// or when no CRLF is left; a chunk that is shorter than its size is taken
/// whole and ends the payload. `None` when a chunk's size cuts a character in
/// two (the point where slicing the string would panic).
pub open spec fn dechunked(rest: Seq<char>) -> Option<Seq<char>>
    decreases rest.len(),
{
    match find(rest, crlf()) {
        None => Some(seq![]),
        Some(e) => {
            proof {
                lemma_find(rest, crlf());
            }
            let rem = rest.skip(e + 2);
            match radix16(trim(rest.take(e))) {
                None => Some(seq![]),
                Some(size) => {
                    if size == 0 {
                        Some(seq![])
                    } else if utf8_len(rem) < size {
                        Some(rem)
                    } else {
                        match char_cut(rem, size as nat) {
                            None => None,
                            Some(k) => {
                                proof {
                                    lemma_char_cut(rem, size as nat);
                                }
                                prepend(rem.take(k), dechunked(strip_crlf(rem.skip(k))))
                            },
                        }
                    }
                },
            }
        },
    }
}


/// A position moved by `d`.
pub open spec fn shift(o: Option<int>, d: int) -> Option<int> {
    match o {
        Some(x) => Some(x + d),
        None => None,
    }
}

/// The payload of a chunked body, or `None` where a chunk size would cut a
/// character in two.
pub fn dechunk_chars(s: &[char]) -> (r: Option<Vec<char>>)
    ensures
        match r {
            Some(v) => dechunked(s@) == Some(v@),
            None => dechunked(s@) is None,
        },
{
    let sep: Vec<char> = vec!['\r', '\n'];
    proof {
        assert(sep@ =~= crlf());
        assert(s@.skip(0) =~= s@);
        assert(prepend(Seq::<char>::empty(), dechunked(s@)) =~= dechunked(s@)) by {
            if let Some(t) = dechunked(s@) {
                assert(Seq::<char>::empty() + t =~= t);
            }
        }
    }
    let mut out: Vec<char> = Vec::new();
    let mut pos: usize = 0;
    let n = s.len();
    loop
        invariant
            pos <= n,
            n == s@.len(),
            sep@ == crlf(),
            dechunked(s@) == prepend(out@, dechunked(s@.skip(pos as int))),
        decreases n - pos,
    {
        let ghost t = s@.skip(pos as int);
        proof {
            lemma_find_from_skip(s@, crlf(), pos as int, 0);
        }
        let e = match find_chars(s, &sep, pos) {
            None => {
                proof {
                    assert(out@ + Seq::<char>::empty() =~= out@);
                }
                return Some(out);
            },
            Some(e) => e,
        };
        let ghost e1 = e - pos;
        proof {
            lemma_find(t, crlf());
            assert(find(t, crlf()) == Some(e1));
            assert(t.take(e1) =~= s@.subrange(pos as int, e as int));
            assert(out@ + Seq::<char>::empty() =~= out@);
        }
        let (a, b) = trim_range(s, pos, e);
        proof {
            assert(trim(t.take(e1)) == s@.subrange(a as int, b as int));
        }
        let size = match parse_radix16(s, a, b) {
            None => {
                return Some(out);
            },
            Some(z) => z,
        };
        if size == 0 {
            return Some(out);
        }
        let r0 = e + 2;
        let ghost rem = s@.skip(r0 as int);
        proof {
            assert(t.skip(e1 + 2) =~= rem);
            assert(s@.skip(r0 as int).skip(0) =~= s@.skip(r0 as int));
        }
        let mut k = r0;
        let mut acc: usize = 0;
        while k < n && acc < size
            invariant
                r0 <= k <= n,
                n == s@.len(),
                acc <= size,
                0 < size,
                rem == s@.skip(r0 as int),
                rem == t.skip(e1 + 2),
                find(t, crlf()) == Some(e1),
                0 <= e1,
                radix16(trim(t.take(e1))) == Some(size),
                t == s@.skip(pos as int),
                dechunked(s@) == prepend(out@, dechunked(t)),
                utf8_len(rem) == acc + utf8_len(s@.skip(k as int)),
                char_cut(rem, size as nat) == shift(
                    char_cut(s@.skip(k as int), (size - acc) as nat),
                    k - r0,
                ),
            decreases n - k,
        {
            let w = char_width(s[k]);
            proof {
                assert(s@.skip(k as int).drop_first() =~= s@.skip(k + 1));
                assert(s@.skip(k as int)[0] == s@[k as int]);
            }
            if w > size - acc {
                proof {
                    assert(char_cut(s@.skip(k as int), (size - acc) as nat) is None);
                    assert(utf8_len(s@.skip(k as int)) >= w);
                    assert(char_cut(rem, size as nat) is None);
                    assert(!(utf8_len(rem) < size));
                    assert(dechunked(t) is None);
                }
                return None;
            }
            acc = acc + w;
            k = k + 1;
        }
        if acc < size {
            proof {
                assert(s@.skip(n as int).len() == 0);
                assert(rem =~= s@.subrange(r0 as int, n as int));
            }
            append_range(&mut out, s, r0, n);
            return Some(out);
        }
        let ghost before = out@;
        append_range(&mut out, s, r0, k);
        let next = if matches_at(s, &sep, k) {
            k + 2
        } else {
            k
        };
        proof {
            let seg = s@.subrange(r0 as int, k as int);
            assert(char_cut(rem, size as nat) == Some(k - r0));
            assert(rem.take(k - r0) =~= seg);
            assert(rem.skip(k - r0) =~= s@.skip(k as int));
            if k + 2 <= n {
                assert(s@.skip(k as int).subrange(0, 2) =~= s@.subrange(k as int, k + 2));
            }
            assert(strip_crlf(s@.skip(k as int)) =~= s@.skip(next as int)) by {
                if next == k + 2 {
                    assert(s@.skip(k as int).skip(2) =~= s@.skip(next as int));
                }
            }
            assert(dechunked(t) == prepend(seg, dechunked(s@.skip(next as int))));
            if let Some(x) = dechunked(s@.skip(next as int)) {
                assert(before + (seg + x) =~= (before + seg) + x);
            }
        }
        pos = next;
    }
}

/// The payload of a chunked body (each chunk is prefixed with its length in
/// hex on its own line, ending in a zero-length chunk).
pub fn dechunk(body: &str) -> (r: String)
    requires
        dechunked(body@) is Some,
    ensures
        Some(r@) == dechunked(body@),
{
    let s = crate::text::chars_of(body);
    match dechunk_chars(&s) {
        Some(v) => crate::text::string_of(&v),
        None => String::new(),
    }
}


// ---------------------------------------------------------------------------
// Requests and responses
// ---------------------------------------------------------------------------

/// Why an HTTP GET gave no body.
#[derive(Clone, Debug, PartialEq, Eq)]
pub enum HttpError {
    /// The connection failed; the text of the I/O error.
    Io(String),
    /// The reply has no blank line between head and body.
    Malformed { host: String },
    /// The status is not `200 OK`; the first line of the head.
    Status { host: String, status_line: String },
}

impl HttpError {
    /// The error's text, as the command line shows it.
    pub open spec fn text(&self) -> Seq<char> {
        match self {
            HttpError::Io(m) => m@,
            HttpError::Malformed { host } => "malformed HTTP response from "@ + host@,
            HttpError::Status { host, status_line } => host@ + " returned: "@ + status_line@,
        }
    }

    /// The error's text.
    pub fn message(&self) -> (r: String)
        ensures
            r@ == self.text(),
    {
        match self {
            HttpError::Io(m) => m.clone(),
            HttpError::Malformed { host } => {
                let mut r = crate::text::owned("malformed HTTP response from ");
                crate::style::push_str(&mut r, host.as_str());
                r
            },
            HttpError::Status { host, status_line } => {
                let mut r = host.clone();
                crate::style::push_str(&mut r, " returned: ");
                crate::style::push_str(&mut r, status_line.as_str());
                r
            },
        }
    }
}

/// `host:80`, the address the plain-HTTP client connects to.
pub fn address(host: &str) -> (r: String)
    ensures
        r@ == host@ + ":80"@,
{
    let mut r = crate::text::owned(host);
    crate::style::push_str(&mut r, ":80");
    r
}

/// The bytes of a bare-bones HTTP/1.1 GET request for `path` on `host`.
pub fn request(host: &str, path: &str) -> (r: String)
    ensures
        r@ == "GET "@ + path@ + " HTTP/1.1\r\nHost: "@ + host@
            + "\r\nUser-Agent: osint-rs\r\nConnection: close\r\n\r\n"@,
{
    let mut r = crate::text::owned("GET ");
    crate::style::push_str(&mut r, path);
    crate::style::push_str(&mut r, " HTTP/1.1\r\nHost: ");
    crate::style::push_str(&mut r, host);
    crate::style::push_str(&mut r, "\r\nUser-Agent: osint-rs\r\nConnection: close\r\n\r\n");
    r
}

/// The status line reported for a reply that is not `200 OK`: the first line
/// of the head.
pub open spec fn status_line(head: Seq<char>) -> Seq<char> {
    if lines(head).len() > 0 {
        lines(head)[0]
    } else {
        "unknown status"@
    }
}

/// Reads the body out of the raw bytes of an HTTP reply from `host`.
/// `None` exactly where the chunked decoder would have to split a character
/// (the point at which slicing the text would panic).
pub fn response_body(host: &str, raw: &[u8]) -> (r: Option<Result<String, HttpError>>)
    ensures
        ({
            let text = utf8_lossy(raw@);
            match find(text, "\r\n\r\n"@) {
                None => r matches Some(Err(HttpError::Malformed { host: h })) && h@ == host@,
                Some(i) => {
                    let head = text.take(i);
                    let body = text.skip(i + 4);
                    if !contains(head, "200 OK"@) {
                        r matches Some(Err(HttpError::Status { host: h, status_line: l }))
                            && h@ == host@ && l@ == status_line(head)
                    } else if contains(lowercase(head), "transfer-encoding: chunked"@) {
                        match dechunked(body) {
                            Some(p) => r matches Some(Ok(b)) && b@ == p,
                            None => r is None,
                        }
                    } else {
                        r matches Some(Ok(b)) && b@ == body
                    }
                },
            }
        }),
{
    let text_s = from_utf8_lossy(raw);
    let text = chars_of(text_s.as_str());
    let sep = chars_of("\r\n\r\n");
    let split = match find_chars(&text, &sep, 0) {
        None => {
            return Some(Err(HttpError::Malformed { host: owned(host) }));
        },
        Some(i) => i,
    };
    let tl = text.len();
    proof {
        lemma_find(text@, sep@);
        reveal_strlit("\r\n\r\n");
        assert(sep@.len() == 4);
        assert(find(text@, sep@) == Some(split as int));
        assert(match_at(text@, sep@, split as int));
        assert(split + 4 <= text@.len());
    }
    let head = slice_range(&text, 0, split);
    let body = slice_range(&text, split + 4, tl);
    proof {
        assert(head@ =~= text@.take(split as int));
        assert(body@ =~= text@.skip(split + 4));
    }
    let ok = chars_of("200 OK");
    if !contains_chars(&head, &ok) {
        let head_lines = split_lines(&head);
        let status = if head_lines.len() > 0 {
            proof {
                assert(head_lines[0]@ == head_lines.deep_view()[0]);
            }
            string_of(&head_lines[0])
        } else {
            owned("unknown status")
        };
        return Some(Err(HttpError::Status { host: owned(host), status_line: status }));
    }
    let head_s = string_of(&head);
    let lower = chars_of(to_lowercase(head_s.as_str()).as_str());
    let chunked = chars_of("transfer-encoding: chunked");
    if contains_chars(&lower, &chunked) {
        match dechunk_chars(&body) {
            Some(p) => Some(Ok(string_of(&p))),
            None => None,
        }
    } else {
        Some(Ok(string_of(&body)))
    }
}


// ---------------------------------------------------------------------------
// The chunked format: what the decoder undoes
// ---------------------------------------------------------------------------

/// A hexadecimal digit for `d < 16`, in upper case when `upper`.
pub open spec fn hex_char(d: nat, upper: bool) -> char {
    if upper {
        seq!['0', '1', '2', '3', '4', '5', '6', '7', '8', '9', 'A', 'B', 'C', 'D', 'E', 'F'][d as int]
    } else {
        seq!['0', '1', '2', '3', '4', '5', '6', '7', '8', '9', 'a', 'b', 'c', 'd', 'e', 'f'][d as int]
    }
}

/// `n` in hexadecimal (`{:x}`, or `{:X}` when `upper`), without leading zeros.
pub open spec fn hex(n: nat, upper: bool) -> Seq<char>
    decreases n,
{
    if n < 16 {
        seq![hex_char(n, upper)]
    } else {
        hex(n / 16, upper).push(hex_char(n % 16, upper))
    }
}

/// A body in chunked transfer encoding: each chunk prefixed with its length
/// in bytes, in hex (upper case when `upper`), on its own line and followed
/// by a CRLF, then the zero-length chunk that ends the body.
pub open spec fn chunked(chunks: Seq<Seq<char>>, upper: bool) -> Seq<char>
    decreases chunks.len(),
{
    if chunks.len() == 0 {
        seq!['0', '\r', '\n', '\r', '\n']
    } else {
        hex(utf8_len(chunks[0]), upper) + crlf() + chunks[0] + crlf() + chunked(chunks.drop_first(), upper)
    }
}

/// The chunks one after the other.
pub open spec fn joined(chunks: Seq<Seq<char>>) -> Seq<char>
    decreases chunks.len(),
{
    if chunks.len() == 0 {
        seq![]
    } else {
        chunks[0] + joined(chunks.drop_first())
    }
}

proof fn lemma_hex_char(d: nat, upper: bool)
    requires
        d < 16,
    ensures
        is_hex_digit(hex_char(d, upper)),
        hex_digit_value(hex_char(d, upper)) == d,
        !is_ws(hex_char(d, upper)),
        hex_char(d, upper) != '\r',
        hex_char(d, upper) != '+',
{
}

proof fn lemma_hex(n: nat, upper: bool)
    ensures
        hex(n, upper).len() >= 1,
        all_hex(hex(n, upper)),
        hex_value(hex(n, upper)) == n,
        forall|i: int| 0 <= i < hex(n, upper).len() ==> !is_ws(#[trigger] hex(n, upper)[i]) && hex(n, upper)[i] != '\r'
            && hex(n, upper)[i] != '+',
    decreases n,
{
    let h = hex(n, upper);
    if n < 16 {
        lemma_hex_char(n, upper);
        assert(h.drop_last() =~= Seq::<char>::empty());
        assert(h.last() == hex_char(n, upper));
        assert(hex_value(Seq::<char>::empty()) == 0);
        assert(hex_value(h) == hex_value(h.drop_last()) * 16 + hex_digit_value(h.last()));
    } else {
        lemma_hex(n / 16, upper);
        lemma_hex_char(n % 16, upper);
        assert(h.drop_last() =~= hex(n / 16, upper));
        assert(h.last() == hex_char(n % 16, upper));
        assert(hex_value(h) == hex_value(hex(n / 16, upper)) * 16 + hex_digit_value(hex_char(n % 16, upper)));
        assert(n == (n / 16) * 16 + n % 16);
        assert forall|i: int| 0 <= i < h.len() implies is_hex_digit(#[trigger] h[i]) && !is_ws(h[i])
            && h[i] != '\r' && h[i] != '+' by {
            if i < h.len() - 1 {
                assert(h[i] == hex(n / 16, upper)[i]);
            }
        }
    }
}

proof fn lemma_find_first(s: Seq<char>, p: Seq<char>, i: int, k: int)
    requires
        0 <= i <= k,
        match_at(s, p, k),
        forall|j: int| i <= j < k ==> !match_at(s, p, j),
    ensures
        find_from(s, p, i) == Some(k),
    decreases k - i,
{
    if i < k {
        lemma_find_first(s, p, i + 1, k);
    }
}

proof fn lemma_utf8_len_add(a: Seq<char>, b: Seq<char>)
    ensures
        utf8_len(a + b) == utf8_len(a) + utf8_len(b),
    decreases a.len(),
{
    if a.len() > 0 {
        lemma_utf8_len_add(a.drop_first(), b);
        assert((a + b).drop_first() =~= a.drop_first() + b);
    } else {
        assert(a + b =~= b);
    }
}

proof fn lemma_char_cut_whole(c: Seq<char>, x: Seq<char>)
    ensures
        char_cut(c + x, utf8_len(c)) == Some(c.len() as int),
    decreases c.len(),
{
    if c.len() > 0 {
        lemma_char_cut_whole(c.drop_first(), x);
        assert((c + x).drop_first() =~= c.drop_first() + x);
        assert((c + x)[0] == c[0]);
    } else {
        assert(utf8_len(c) == 0);
    }
}

proof fn lemma_trim_plain(h: Seq<char>)
    requires
        forall|i: int| 0 <= i < h.len() ==> !is_ws(#[trigger] h[i]),
    ensures
        trim(h) == h,
{
    crate::text::lemma_trim_start_is(h, 0);
    assert(h.skip(0) =~= h);
    crate::text::lemma_trim_end_is(h, h.len() as int);
    assert(h.take(h.len() as int) =~= h);
}

/// The size line `0` followed by the blank line ends the payload.
proof fn lemma_last_chunk(upper: bool)
    ensures
        dechunked(chunked(Seq::<Seq<char>>::empty(), upper)) == Some(Seq::<char>::empty()),
{
    let s = chunked(Seq::<Seq<char>>::empty(), upper);
    assert(s =~= seq!['0', '\r', '\n', '\r', '\n']);
    assert(match_at(s, crlf(), 1)) by {
        assert(s.subrange(1, 3) =~= crlf());
    }
    assert(!match_at(s, crlf(), 0)) by {
        assert(s.subrange(0, 2)[0] == '0');
    }
    lemma_find_first(s, crlf(), 0, 1);
    assert(s.take(1) =~= seq!['0']);
    lemma_trim_plain(seq!['0']);
    assert(hex_value(seq!['0']) == 0) by {
        let z = seq!['0'];
        assert(z.drop_last() =~= Seq::<char>::empty());
        assert(hex_value(Seq::<char>::empty()) == 0);
        assert(hex_value(z) == hex_value(z.drop_last()) * 16 + hex_digit_value(z.last()));
        assert(hex_digit_value('0') == 0);
    }
    assert(all_hex(seq!['0']));
    assert(radix16(seq!['0']) == Some(0usize));
}

/// One chunk: its size line, its bytes and its CRLF give its bytes, then
/// whatever the rest of the body gives.
proof fn lemma_one_chunk(c: Seq<char>, r: Seq<char>, upper: bool)
    requires
        c.len() > 0,
        utf8_len(c) <= usize::MAX,
    ensures
        dechunked(hex(utf8_len(c), upper) + crlf() + c + crlf() + r) == prepend(c, dechunked(r)),
{
    let n = utf8_len(c);
    let h = hex(n, upper);
    let s = h + crlf() + c + crlf() + r;
    lemma_hex(n, upper);
    let k = h.len() as int;
    assert forall|j: int| 0 <= j < k implies !match_at(s, crlf(), j) by {
        assert(s[j] == h[j]);
        assert(s.subrange(j, j + 2)[0] == s[j]);
    }
    assert(match_at(s, crlf(), k)) by {
        assert(s.subrange(k, k + 2) =~= crlf());
    }
    lemma_find_first(s, crlf(), 0, k);
    assert(find(s, crlf()) == Some(k));
    assert(s.take(k) =~= h);
    lemma_trim_plain(h);
    assert(radix16(h) == Some(n as usize));
    let rem = s.skip(k + 2);
    assert(rem =~= c + (crlf() + r));
    lemma_utf8_len_add(c, crlf() + r);
    lemma_char_cut_whole(c, crlf() + r);
    assert(n > 0) by {
        assert(utf8_len(c) == utf8_width(c[0]) + utf8_len(c.drop_first()));
    }
    assert(rem.take(c.len() as int) =~= c);
    assert(rem.skip(c.len() as int) =~= crlf() + r);
    assert(strip_crlf(crlf() + r) =~= r) by {
        assert((crlf() + r).subrange(0, 2) =~= crlf());
    }
}

/// Decoding undoes chunking: a body chunked as the format says, with its
/// sizes in lower- or upper-case hex, decodes to the chunks one after the
/// other, for any non-empty chunks whose byte lengths fit in `usize`.
pub proof fn lemma_dechunk_undoes_chunking(chunks: Seq<Seq<char>>, upper: bool)
    requires
        forall|i: int| 0 <= i < chunks.len() ==> (#[trigger] chunks[i]).len() > 0 && utf8_len(
            chunks[i],
        ) <= usize::MAX,
    ensures
        dechunked(chunked(chunks, upper)) == Some(joined(chunks)),
    decreases chunks.len(),
{
    if chunks.len() == 0 {
        lemma_last_chunk(upper);
        assert(chunks =~= Seq::<Seq<char>>::empty());
    } else {
        let c = chunks[0];
        let tail = chunks.drop_first();
        assert forall|i: int| 0 <= i < tail.len() implies (#[trigger] tail[i]).len() > 0 && utf8_len(
            tail[i],
        ) <= usize::MAX by {
            assert(tail[i] == chunks[i + 1]);
        }
        lemma_dechunk_undoes_chunking(tail, upper);
        lemma_one_chunk(c, chunked(tail, upper), upper);
        assert(chunked(chunks, upper) == hex(utf8_len(c), upper) + crlf() + c + crlf() + chunked(tail, upper));
        assert(joined(chunks) == c + joined(tail));
    }
}

} // verus!
