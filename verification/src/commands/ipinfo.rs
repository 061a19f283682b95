use vstd::prelude::*;

use crate::http::HttpError;
use crate::json::{as_text, get_member, json_of, member, parse_json, text_of, Json};
use crate::shell::{Invocation, ShellError};
use crate::style::{push_span, push_str, push_title, span, span2, span3, title_pieces, Look, Piece, Span};
use crate::text::{blank, chars_of, is_blank, lines, owned, split_lines, string_of, trim, trimmed};

verus! {

/// The host of the geolocation API (plain HTTP, no key).
pub const GEO_HOST: &'static str = "ip-api.com";

/// `dig +short A <target>`, resolving a hostname to IPv4 addresses.
pub fn resolve_query(target: &str) -> (r: Invocation)
    ensures
        r.bin@ == "dig"@,
        r.args.len() == 3,
        r.args[0]@ == "+short"@,
        r.args[1]@ == "A"@,
        r.args[2]@ == target@,
        r.timeout_secs == crate::shell::DEFAULT_TIMEOUT_SECS,
{
    let args: [&str; 3] = ["+short", "A", target];
    crate::shell::run("dig", &args)
}

/// `dig +short -x <ip>`, the reverse lookup.
pub fn reverse_query(ip: &str) -> (r: Invocation)
    ensures
        r.bin@ == "dig"@,
        r.args.len() == 3,
        r.args[0]@ == "+short"@,
        r.args[1]@ == "-x"@,
        r.args[2]@ == ip@,
        r.timeout_secs == crate::shell::DEFAULT_TIMEOUT_SECS,
{
    let args: [&str; 3] = ["+short", "-x", ip];
    crate::shell::run("dig", &args)
}

/// The path of the geolocation query for `ip`.
pub fn geo_path(ip: &str) -> (r: String)
    ensures
        r@ == "/json/"@ + ip@ + "?fields=status,message,country,regionName,city,isp,org,as,query"@,
{
    span3("/json/", ip, "?fields=status,message,country,regionName,city,isp,org,as,query", Look::Plain).text
}

/// Why a target could not be turned into an address.
#[derive(Clone, Debug, PartialEq, Eq)]
pub enum ResolveError {
    /// The lookup itself failed.
    Lookup(ShellError),
    /// The lookup gave no address.
    Unresolved { target: String },
}

impl ResolveError {
    /// The error's text, as the command line shows it.
    pub open spec fn text(&self) -> Seq<char> {
        match self {
            ResolveError::Lookup(e) => e.text(),
            ResolveError::Unresolved { target } => "could not resolve "@ + target@
                + " to an IPv4 address"@,
        }
    }

    /// The error's text.
    pub fn message(&self) -> (r: String)
        ensures
            r@ == self.text(),
    {
        match self {
            ResolveError::Lookup(e) => e.message(),
            ResolveError::Unresolved { target } => span3(
                "could not resolve ",
                target.as_str(),
                " to an IPv4 address",
                Look::Plain,
            ).text,
        }
    }
}

/// The first line that is not blank.
pub open spec fn first_filled(ls: Seq<Seq<char>>) -> Option<Seq<char>>
    decreases ls.len(),
{
    if ls.len() == 0 {
        None
    } else if !is_blank(ls[0]) {
        Some(ls[0])
    } else {
        first_filled(ls.drop_first())
    }
}

/// The answer a lookup resolves to is its first line that is not blank:
/// there is one exactly when some line is not blank, and every line before
/// it is blank.
pub proof fn lemma_first_filled(ls: Seq<Seq<char>>)
    ensures
        first_filled(ls) is None <==> forall|i: int| 0 <= i < ls.len() ==> is_blank(#[trigger] ls[i]),
        first_filled(ls) matches Some(l) ==> exists|k: int|
            0 <= k < ls.len() && ls[k] == l && !is_blank(l) && forall|i: int|
                0 <= i < k ==> is_blank(#[trigger] ls[i]),
    decreases ls.len(),
{
    if ls.len() > 0 {
        let d = ls.drop_first();
        lemma_first_filled(d);
        if is_blank(ls[0]) {
            if first_filled(d) is None {
                assert forall|i: int| 0 <= i < ls.len() implies is_blank(#[trigger] ls[i]) by {
                    if i > 0 {
                        assert(ls[i] == d[i - 1]);
                    }
                }
            } else {
                let l = first_filled(d)->0;
                let k = choose|k: int|
                    0 <= k < d.len() && d[k] == l && !is_blank(l) && forall|i: int|
                        0 <= i < k ==> is_blank(#[trigger] d[i]);
                assert(ls[k + 1] == d[k]);
                assert forall|i: int| 0 <= i < k + 1 implies is_blank(#[trigger] ls[i]) by {
                    if i > 0 {
                        assert(ls[i] == d[i - 1]);
                    }
                }
                assert(!is_blank(ls[k + 1]));
            }
        } else {
            assert(!is_blank(ls[0]));
        }
    }
}

/// How the address of a target is found.
pub enum Resolution {
    /// The target is an IP address already.
    Literal(String),
    /// The target is a host name; the query resolves it.
    Lookup(Invocation),
}

/// How to find the address of a target: when it already is an IP address
/// (`is_ip`: it parses as one), the target itself and no lookup; else the DNS
/// query that resolves it.
pub fn resolution(target: &str, is_ip: bool) -> (r: Resolution)
    ensures
        is_ip ==> (r matches Resolution::Literal(ip) && ip@ == target@),
        !is_ip ==> (r matches Resolution::Lookup(q) && q.bin@ == "dig"@ && q.args.len() == 3
            && q.args[0]@ == "+short"@ && q.args[1]@ == "A"@ && q.args[2]@ == target@
            && q.timeout_secs == crate::shell::DEFAULT_TIMEOUT_SECS),
{
    if is_ip {
        Resolution::Literal(owned(target))
    } else {
        Resolution::Lookup(resolve_query(target))
    }
}

/// The address a hostname resolves to: the first non-blank line of dig's
/// answer, trimmed.
pub fn resolve(target: &str, answer: &Result<String, ShellError>) -> (r: Result<String, ResolveError>)
    ensures
        match answer {
            Err(e) => r matches Err(ResolveError::Lookup(x)) && x == *e,
            Ok(o) => match first_filled(lines(o@)) {
                Some(l) => r matches Ok(ip) && ip@ == trim(l),
                None => r matches Err(ResolveError::Unresolved { target: t }) && t@ == target@,
            },
        },
{
    let o = match answer {
        Err(e) => {
            return Err(ResolveError::Lookup(e.duplicate()));
        },
        Ok(o) => o,
    };
    let ls = split_lines(&chars_of(o.as_str()));
    let mut i: usize = 0;
    proof {
        assert(ls.deep_view().skip(0) =~= ls.deep_view());
    }
    while i < ls.len()
        invariant
            i <= ls.len(),
            ls.deep_view() == lines(o@),
            *answer == Ok::<String, ShellError>(*o),
            first_filled(lines(o@)) == first_filled(ls.deep_view().skip(i as int)),
        decreases ls.len() - i,
    {
        proof {
            assert(ls.deep_view().skip(i as int)[0] == ls[i as int]@);
            assert(ls.deep_view().skip(i as int).drop_first() =~= ls.deep_view().skip(i + 1));
        }
        if !blank(&ls[i]) {
            proof {
                assert(first_filled(ls.deep_view().skip(i as int)) == Some(ls[i as int]@));
            }
            return Ok(string_of(&trimmed(&ls[i])));
        }
        i = i + 1;
    }
    Err(ResolveError::Unresolved { target: owned(target) })
}

/// The reverse name shown: the first line of the reverse lookup (nothing
/// when it failed), trimmed, or `(none)` when there is no line.
pub open spec fn reverse_text(answer: Result<String, ShellError>) -> Seq<char> {
    let text = match answer {
        Ok(o) => o@,
        Err(_) => seq![],
    };
    let ls = lines(text);
    trim(
        if ls.len() > 0 {
            ls[0]
        } else {
            "(none)"@
        },
    )
}

/// The reverse-DNS name: the first line of the lookup's output, trimmed, or
/// `(none)`.
pub fn reverse_name(answer: &Result<String, ShellError>) -> (r: String)
    ensures
        r@ == reverse_text(*answer),
{
    let text = match answer {
        Ok(o) => o.clone(),
        Err(_) => String::new(),
    };
    let ls = split_lines(&chars_of(text.as_str()));
    if ls.len() > 0 {
        proof {
            assert(ls.deep_view()[0] == ls[0]@);
        }
        string_of(&trimmed(&ls[0]))
    } else {
        string_of(&trimmed(&chars_of("(none)")))
    }
}

/// The value of a field of the geolocation reply, `—` when absent.
pub open spec fn field(j: Json, k: Seq<char>) -> Seq<char> {
    match text_of(member(j, k)) {
        Some(s) => s,
        None => "—"@,
    }
}

/// One `<label> <value>` row of the report; the label is padded to 14
/// columns and dimmed.
pub open spec fn row(label: Seq<char>, value: Seq<char>) -> Seq<Piece> {
    seq![("  "@, Look::Plain), (label, Look::Dimmed), (" "@ + value + "\n"@, Look::Plain)]
}

/// The geolocation rows: country, region and city, ISP, organisation and AS
/// on success, else a line saying why there are none.
pub open spec fn geo_rows(geo: Result<String, HttpError>) -> Seq<Piece> {
    match geo {
        Err(e) => seq![("  Geolocation: [skipped] "@ + e.text() + "\n"@, Look::Plain)],
        Ok(body) => match json_of(body@) {
            None => seq![("  Geolocation: (could not parse response)\n"@, Look::Plain)],
            Some(j) => if text_of(member(j, "status"@)) == Some("success"@) {
                row("Country:      "@, field(j, "country"@)) + row(
                    "Region/City:  "@,
                    field(j, "regionName"@) + ", "@ + field(j, "city"@),
                ) + row("ISP:          "@, field(j, "isp"@)) + row("Org:          "@, field(j, "org"@))
                    + row("ASN:          "@, field(j, "as"@))
            } else {
                seq![
                    ("  "@, Look::Plain),
                    ("Geolocation:"@, Look::Dimmed),
                    (" "@ + match text_of(member(j, "message"@)) {
                        Some(m) => m,
                        None => "lookup failed"@,
                    } + "\n"@, Look::Plain),
                ]
            },
        },
    }
}

/// The IP report: the resolved address, its reverse-DNS name, then the
/// geolocation rows.
pub open spec fn report(
    target: Seq<char>,
    ip: Seq<char>,
    rdns: Seq<char>,
    geo: Result<String, HttpError>,
) -> Seq<Piece> {
    title_pieces("IP info for "@ + target) + row("IP address:   "@, ip) + row(
        "Reverse DNS:  "@,
        if rdns.len() == 0 {
            "(none)"@
        } else {
            rdns
        },
    ) + geo_rows(geo)
}

fn push_row(out: &mut Vec<Span>, label: &str, value: &str)
    ensures
        final(out).deep_view() == old(out).deep_view() + row(label@, value@),
{
    let ghost before = out.deep_view();
    push_span(out, span("  ", Look::Plain));
    push_span(out, span(label, Look::Dimmed));
    push_span(out, span3(" ", value, "\n", Look::Plain));
    proof {
        assert(out.deep_view() =~= before + row(label@, value@));
    }
}

fn field_of(j: &Json, k: &str) -> (r: String)
    ensures
        r@ == field(*j, k@),
{
    match as_text(get_member(j, k)) {
        Some(s) => s.clone(),
        None => owned("—"),
    }
}

/// The IP report: the address, its reverse name, and where it is (country,
/// region and city, ISP, organisation, ASN), or why geolocation failed.
pub fn run(target: &str, ip: &str, rdns: &str, geo: &Result<String, HttpError>) -> (r: Vec<Span>)
    ensures
        r.deep_view() == report(target@, ip@, rdns@, *geo),
{
    let mut out: Vec<Span> = Vec::new();
    push_title(&mut out, span2("IP info for ", target, Look::Plain).text);
    push_row(&mut out, "IP address:   ", ip);
    if chars_of(rdns).len() == 0 {
        push_row(&mut out, "Reverse DNS:  ", "(none)");
    } else {
        push_row(&mut out, "Reverse DNS:  ", rdns);
    }
    let ghost head = out.deep_view();
    match geo {
        Err(e) => {
            let m = e.message();
            push_span(&mut out, span3("  Geolocation: [skipped] ", m.as_str(), "\n", Look::Plain));
        },
        Ok(body) => match parse_json(body.as_str()) {
            None => {
                push_span(&mut out, span("  Geolocation: (could not parse response)\n", Look::Plain));
            },
            Some(j) => {
                let success = match as_text(get_member(&j, "status")) {
                    Some(s) => crate::text::same_text(s.as_str(), "success"),
                    None => false,
                };
                if success {
                    let country = field_of(&j, "country");
                    push_row(&mut out, "Country:      ", country.as_str());
                    let mut place = field_of(&j, "regionName");
                    push_str(&mut place, ", ");
                    let city = field_of(&j, "city");
                    push_str(&mut place, city.as_str());
                    push_row(&mut out, "Region/City:  ", place.as_str());
                    let isp = field_of(&j, "isp");
                    push_row(&mut out, "ISP:          ", isp.as_str());
                    let org = field_of(&j, "org");
                    push_row(&mut out, "Org:          ", org.as_str());
                    let asn = field_of(&j, "as");
                    push_row(&mut out, "ASN:          ", asn.as_str());
                } else {
                    let msg = match as_text(get_member(&j, "message")) {
                        Some(m) => m.clone(),
                        None => owned("lookup failed"),
                    };
                    push_span(&mut out, span("  ", Look::Plain));
                    push_span(&mut out, span("Geolocation:", Look::Dimmed));
                    push_span(&mut out, span3(" ", msg.as_str(), "\n", Look::Plain));
                }
            },
        },
    }
    proof {
        assert(out.deep_view() =~= report(target@, ip@, rdns@, *geo));
    }
    out
}

} // verus!
