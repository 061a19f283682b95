use vstd::prelude::*;

use crate::shell::{Invocation, ShellError};
use crate::style::{push_span, push_title, span, span2, span3, span_chars, title_pieces, Hue, Look, Piece, Span, Tone};
use crate::text::{
    blank, chars_of, find, find_chars, is_blank, lemma_find, lemma_find_from_skip, lines, lowercase,
    match_at, matches_at, owned, slice_range, split_lines, starts_with, string_of, to_lowercase,
};

verus! {

/// Headers that leak tech-stack information (server software and version,
/// frameworks, CDN/WAF presence), lowercase.
pub open spec fn notable() -> Seq<Seq<char>> {
    seq![
        "server"@,
        "x-powered-by"@,
        "x-aspnet-version"@,
        "x-generator"@,
        "via"@,
        "x-cache"@,
        "cf-ray"@,
        "x-drupal-cache"@,
        "set-cookie"@,
    ]
}

fn notable_names() -> (r: Vec<&'static str>)
    ensures
        r@.len() == notable().len(),
        forall|k: int| 0 <= k < r@.len() ==> (#[trigger] r@[k])@ == notable()[k],
{
    let mut r: Vec<&'static str> = Vec::new();
    r.push("server");
    r.push("x-powered-by");
    r.push("x-aspnet-version");
    r.push("x-generator");
    r.push("via");
    r.push("x-cache");
    r.push("cf-ray");
    r.push("x-drupal-cache");
    r.push("set-cookie");
    r
}

/// The URL fetched first.
pub fn https_url(target: &str) -> (r: String)
    ensures
        r@ == "https://"@ + target@,
{
    span2("https://", target, Look::Plain).text
}

/// The URL fetched when HTTPS fails.
pub fn http_url(target: &str) -> (r: String)
    ensures
        r@ == "http://"@ + target@,
{
    span2("http://", target, Look::Plain).text
}

/// curl fetching the response headers of `url`: GET rather than HEAD (some
/// servers reject HEAD), following redirects, at most 10 seconds.
pub fn fetch(url: &str) -> (r: Invocation)
    ensures
        r.bin@ == "curl"@,
        r.args.len() == 9,
        r.args[0]@ == "-s"@,
        r.args[1]@ == "-D"@,
        r.args[2]@ == "-"@,
        r.args[3]@ == "-o"@,
        r.args[4]@ == "/dev/null"@,
        r.args[5]@ == "-L"@,
        r.args[6]@ == "--max-time"@,
        r.args[7]@ == "10"@,
        r.args[8]@ == url@,
        r.timeout_secs == crate::shell::DEFAULT_TIMEOUT_SECS,
{
    let args: [&str; 9] = ["-s", "-D", "-", "-o", "/dev/null", "-L", "--max-time", "10", url];
    crate::shell::run("curl", &args)
}

/// Whether the plain-HTTP fallback is needed: exactly when HTTPS failed.
pub fn needs_fallback(https: &Result<String, ShellError>) -> (r: bool)
    ensures
        r == https is Err,
{
    https.is_err()
}

/// The blank line that ends a block of headers.
pub open spec fn sep() -> Seq<char> {
    seq!['\r', '\n', '\r', '\n']
}

/// `s.split("\r\n\r\n")`: the blocks between blank lines of a header dump.
pub open spec fn blocks(s: Seq<char>) -> Seq<Seq<char>>
    decreases s.len(),
{
    match find(s, sep()) {
        None => seq![s],
        Some(i) => {
            proof {
                lemma_find(s, sep());
            }
            seq![s.take(i)] + blocks(s.skip(i + 4))
        },
    }
}

/// The last block that is not blank.
pub open spec fn last_filled(bs: Seq<Seq<char>>) -> Option<Seq<char>>
    decreases bs.len(),
{
    if bs.len() == 0 {
        None
    } else {
        match last_filled(bs.drop_first()) {
            Some(b) => Some(b),
            None => if is_blank(bs[0]) {
                None
            } else {
                Some(bs[0])
            },
        }
    }
}

/// With `-L` curl prints the headers of every hop; only the final block is
/// kept (the whole output when no block is filled).
pub open spec fn final_block(output: Seq<char>) -> Seq<char> {
    match last_filled(blocks(output)) {
        Some(b) => b,
        None => output,
    }
}

/// A header line that reveals software or infrastructure: it starts, in
/// lower case, with one of the notable header names.
pub open spec fn is_notable(line: Seq<char>) -> bool {
    exists|k: int| 0 <= k < notable().len() && starts_with(lowercase(line), #[trigger] notable()[k])
}

/// One report line per header line, notable ones in yellow.
pub open spec fn header_lines(ls: Seq<Seq<char>>) -> Seq<Piece>
    decreases ls.len(),
{
    if ls.len() == 0 {
        seq![]
    } else {
        header_lines(ls.drop_last()) + if is_notable(ls.last()) {
            seq![
                ("  "@, Look::Plain),
                (ls.last(), Look::Fg(Tone::Dark(Hue::Yellow))),
                ("\n"@, Look::Plain),
            ]
        } else {
            seq![("  "@ + ls.last() + "\n"@, Look::Plain)]
        }
    }
}

/// The number of notable lines.
pub open spec fn count_notable(ls: Seq<Seq<char>>) -> nat
    decreases ls.len(),
{
    if ls.len() == 0 {
        0
    } else {
        count_notable(ls.drop_last()) + if is_notable(ls.last()) {
            1nat
        } else {
            0nat
        }
    }
}

/// The headers report: the URL that answered, then each line of the final
/// header block, the notable ones highlighted, and a note when none is.
pub open spec fn report(used_url: Seq<char>, output: Seq<char>) -> Seq<Piece> {
    let ls = lines(final_block(output));
    title_pieces("HTTP headers for "@ + used_url) + header_lines(ls) + if count_notable(ls) == 0 {
        seq![("  (no notable fingerprinting headers exposed)\n"@, Look::Plain)]
    } else {
        seq![]
    }
}

/// No usable reply came back from the target.
#[derive(Clone, Debug, PartialEq, Eq)]
pub struct NoResponse {
    pub target: String,
}

impl NoResponse {
    /// The error's text, as the command line shows it.
    pub open spec fn text(&self) -> Seq<char> {
        "no response from "@ + self.target@ + " over HTTPS or HTTP"@
    }

    /// The error's text.
    pub fn message(&self) -> (r: String)
        ensures
            r@ == self.text(),
    {
        span3("no response from ", self.target.as_str(), " over HTTPS or HTTP", Look::Plain).text
    }
}

fn final_block_of(s: &Vec<char>) -> (r: Vec<char>)
    ensures
        r@ == final_block(s@),
{
    let sepv: Vec<char> = vec!['\r', '\n', '\r', '\n'];
    let n = s.len();
    let mut best: Option<(usize, usize)> = None;
    let mut pos: usize = 0;
    proof {
        assert(sepv@ =~= sep());
        assert(s@.skip(0) =~= s@);
    }
    loop
        invariant
            pos <= n,
            n == s@.len(),
            sepv@ == sep(),
            best matches Some((a, b)) ==> a <= b <= n,
            last_filled(blocks(s@)) == (match last_filled(blocks(s@.skip(pos as int))) {
                Some(x) => Some(x),
                None => match best {
                    Some((a, b)) => Some(s@.subrange(a as int, b as int)),
                    None => None,
                },
            }),
        ensures
            best matches Some((a, b)) ==> a <= b <= n,
            last_filled(blocks(s@)) == (match best {
                Some((a, b)) => Some(s@.subrange(a as int, b as int)),
                None => None,
            }),
        decreases n - pos,
    {
        let ghost t = s@.skip(pos as int);
        proof {
            lemma_find_from_skip(s@, sep(), pos as int, 0);
            lemma_find(t, sep());
        }
        match find_chars(s, &sepv, pos) {
            None => {
                proof {
                    assert(blocks(t) == seq![t]);
                    assert(seq![t].drop_first() =~= Seq::<Seq<char>>::empty());
                    assert(t =~= s@.subrange(pos as int, n as int));
                }
                let filled = !blank(&slice_range(s, pos, n));
                proof {
                    assert(last_filled(Seq::<Seq<char>>::empty()) is None);
                    assert(last_filled(seq![t]) == (if is_blank(t) {
                        None
                    } else {
                        Some(t)
                    }));
                }
                if filled {
                    best = Some((pos, n));
                }
                break;
            },
            Some(i) => {
                proof {
                    assert(find(t, sep()) == Some(i - pos));
                    assert(match_at(t, sep(), i - pos));
                    assert(t.take(i - pos) =~= s@.subrange(pos as int, i as int));
                    assert(t.skip(i - pos + 4) =~= s@.skip(i + 4));
                    let bs = blocks(t);
                    assert(bs == seq![t.take(i - pos)] + blocks(t.skip(i - pos + 4)));
                    assert(bs.drop_first() =~= blocks(s@.skip(i + 4)));
                    assert(bs[0] == s@.subrange(pos as int, i as int));
                }
                let filled = !blank(&slice_range(s, pos, i));
                if filled {
                    best = Some((pos, i));
                }
                pos = i + 4;
            },
        }
    }
    proof {
        assert(s@.subrange(0, n as int) =~= s@);
    }
    match best {
        Some((a, b)) => slice_range(s, a, b),
        None => slice_range(s, 0, n),
    }
}

fn is_notable_line(line: &Vec<char>, names: &Vec<&'static str>) -> (r: bool)
    requires
        names@.len() == notable().len(),
        forall|k: int| 0 <= k < names@.len() ==> (#[trigger] names@[k])@ == notable()[k],
    ensures
        r == is_notable(line@),
{
    let lower = chars_of(to_lowercase(string_of(line).as_str()).as_str());
    let mut k: usize = 0;
    while k < names.len()
        invariant
            k <= names@.len(),
            names@.len() == notable().len(),
            forall|j: int| 0 <= j < names@.len() ==> (#[trigger] names@[j])@ == notable()[j],
            lower@ == lowercase(line@),
            forall|j: int| 0 <= j < k ==> !starts_with(lowercase(line@), #[trigger] notable()[j]),
        decreases names@.len() - k,
    {
        let name = chars_of(names[k]);
        proof {
            assert(names@[k as int]@ == notable()[k as int]);
        }
        if matches_at(&lower, &name, 0) {
            return true;
        }
        k = k + 1;
    }
    false
}

/// The headers report. `used_https` says which URL gave `output` (HTTPS
/// first, plain HTTP when HTTPS failed); an error or a blank reply means no
/// response at all.
pub fn run(target: &str, used_https: bool, output: &Result<String, ShellError>) -> (r: Result<
    Vec<Span>,
    NoResponse,
>)
    ensures
        match output {
            Ok(o) if !is_blank(o@) => r matches Ok(v) && v.deep_view() == report(
                (if used_https {
                    "https://"@
                } else {
                    "http://"@
                }) + target@,
                o@,
            ),
            _ => r matches Err(e) && e.target@ == target@,
        },
{
    let o = match output {
        Ok(o) => o,
        Err(_) => {
            return Err(NoResponse { target: owned(target) });
        },
    };
    let oc = chars_of(o.as_str());
    if blank(&oc) {
        return Err(NoResponse { target: owned(target) });
    }
    let url = if used_https {
        https_url(target)
    } else {
        http_url(target)
    };
    let mut out: Vec<Span> = Vec::new();
    push_title(&mut out, span2("HTTP headers for ", url.as_str(), Look::Plain).text);
    let ghost head = out.deep_view();
    let block = final_block_of(&oc);
    let ls = split_lines(&block);
    let names = notable_names();
    let mut found: usize = 0;
    let mut i: usize = 0;
    proof {
        assert(ls.deep_view().take(0) =~= Seq::<Seq<char>>::empty());
        assert(head + header_lines(Seq::<Seq<char>>::empty()) =~= head);
    }
    while i < ls.len()
        invariant
            i <= ls.len(),
            ls.deep_view() == lines(final_block(o@)),
            names@.len() == notable().len(),
            forall|k: int| 0 <= k < names@.len() ==> (#[trigger] names@[k])@ == notable()[k],
            out.deep_view() == head + header_lines(ls.deep_view().take(i as int)),
            found == count_notable(ls.deep_view().take(i as int)),
            found <= i,
        decreases ls.len() - i,
    {
        let ghost before = out.deep_view();
        let ghost taken = ls.deep_view().take(i + 1);
        proof {
            assert(taken.drop_last() =~= ls.deep_view().take(i as int));
            assert(taken.last() == ls[i as int]@);
        }
        if is_notable_line(&ls[i], &names) {
            found = found + 1;
            push_span(&mut out, span("  ", Look::Plain));
            push_span(&mut out, span_chars(&ls[i], Look::Fg(Tone::Dark(Hue::Yellow))));
            push_span(&mut out, span("\n", Look::Plain));
        } else {
            let s = string_of(&ls[i]);
            push_span(&mut out, span3("  ", s.as_str(), "\n", Look::Plain));
        }
        proof {
            assert(out.deep_view() =~= head + header_lines(taken));
        }
        i = i + 1;
    }
    proof {
        assert(ls.deep_view().take(i as int) =~= ls.deep_view());
    }
    if found == 0 {
        push_span(&mut out, span("  (no notable fingerprinting headers exposed)\n", Look::Plain));
    }
    proof {
        let u = (if used_https {
            "https://"@
        } else {
            "http://"@
        }) + target@;
        assert(out.deep_view() =~= report(u, o@));
    }
    Ok(out)
}

proof fn lemma_header_lines_keep(ls: Seq<Seq<char>>, i: int)
    requires
        0 <= i < ls.len(),
        is_notable(ls[i]),
    ensures
        header_lines(ls).contains((ls[i], Look::Fg(Tone::Dark(Hue::Yellow)))),
        count_notable(ls) > 0,
    decreases ls.len(),
{
    let p = (ls[i], Look::Fg(Tone::Dark(Hue::Yellow)));
    let h0 = header_lines(ls.drop_last());
    if i == ls.len() - 1 {
        let h = header_lines(ls);
        assert(h[h0.len() as int + 1] == p);
    } else {
        assert(ls.drop_last()[i] == ls[i]);
        lemma_header_lines_keep(ls.drop_last(), i);
        let j = choose|j: int| 0 <= j < h0.len() && h0[j] == p;
        assert(header_lines(ls)[j] == h0[j]);
    }
}

/// A header line of the final block that starts, in lower case, with
/// `server`, `x-powered-by`, `x-aspnet-version`, `x-generator`, `via`,
/// `x-cache`, `cf-ray`, `x-drupal-cache` or `set-cookie` is drawn in yellow,
/// and then the report ends with the header lines: no note says that nothing
/// notable was exposed.
pub proof fn lemma_notable_highlighted(used_url: Seq<char>, output: Seq<char>, i: int)
    requires
        0 <= i < lines(final_block(output)).len(),
        ({
            let l = lowercase(lines(final_block(output))[i]);
            ||| starts_with(l, "server"@)
            ||| starts_with(l, "x-powered-by"@)
            ||| starts_with(l, "x-aspnet-version"@)
            ||| starts_with(l, "x-generator"@)
            ||| starts_with(l, "via"@)
            ||| starts_with(l, "x-cache"@)
            ||| starts_with(l, "cf-ray"@)
            ||| starts_with(l, "x-drupal-cache"@)
            ||| starts_with(l, "set-cookie"@)
        }),
    ensures
        report(used_url, output).contains(
            (lines(final_block(output))[i], Look::Fg(Tone::Dark(Hue::Yellow))),
        ),
        report(used_url, output) == title_pieces("HTTP headers for "@ + used_url) + header_lines(
            lines(final_block(output)),
        ),
{
    let ls = lines(final_block(output));
    let l = lowercase(ls[i]);
    let ns = notable();
    if starts_with(l, "server"@) {
        assert(starts_with(l, ns[0]));
    } else if starts_with(l, "x-powered-by"@) {
        assert(starts_with(l, ns[1]));
    } else if starts_with(l, "x-aspnet-version"@) {
        assert(starts_with(l, ns[2]));
    } else if starts_with(l, "x-generator"@) {
        assert(starts_with(l, ns[3]));
    } else if starts_with(l, "via"@) {
        assert(starts_with(l, ns[4]));
    } else if starts_with(l, "x-cache"@) {
        assert(starts_with(l, ns[5]));
    } else if starts_with(l, "cf-ray"@) {
        assert(starts_with(l, ns[6]));
    } else if starts_with(l, "x-drupal-cache"@) {
        assert(starts_with(l, ns[7]));
    } else {
        assert(starts_with(l, ns[8]));
    }
    assert(is_notable(ls[i]));
    lemma_header_lines_keep(ls, i);
    let head = title_pieces("HTTP headers for "@ + used_url);
    let h = header_lines(ls);
    let j = choose|j: int| 0 <= j < h.len() && h[j] == (ls[i], Look::Fg(Tone::Dark(Hue::Yellow)));
    assert(report(used_url, output) =~= head + h);
    assert((head + h)[head.len() + j] == h[j]);
}

} // verus!
