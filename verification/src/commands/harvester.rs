use vstd::prelude::*;

use crate::shell::Invocation;
use crate::style::{push_span, push_title, span, title_pieces, Look, Piece, Span};
use crate::text::owned;

verus! {

/// Sources that work without an API key, used when no `--sources` is given.
pub const DEFAULT_SOURCES: &'static str = "bing,duckduckgo,crtsh,otx,hackertarget,rapiddns";

/// Seconds theHarvester may run.
pub const TIMEOUT_SECS: u64 = 90;

/// The sources to query: those given, else the default ones.
pub open spec fn chosen_sources(sources: Option<Seq<char>>) -> Seq<char> {
    match sources {
        Some(s) => s,
        None => DEFAULT_SOURCES@,
    }
}

/// An optional text by its characters.
pub open spec fn opt_view(o: Option<&str>) -> Option<Seq<char>> {
    match o {
        Some(s) => Some(s@),
        None => None,
    }
}

/// The sources to query: the given list, or the key-free default.
pub fn sources_or_default(sources: Option<&str>) -> (r: &str)
    ensures
        r@ == chosen_sources(opt_view(sources)),
{
    match sources {
        Some(s) => s,
        None => DEFAULT_SOURCES,
    }
}

/// `theHarvester -d <target> -b <sources>`, allowed 90 seconds.
pub fn invocation(target: &str, sources: Option<&str>) -> (r: Invocation)
    ensures
        r.bin@ == "theHarvester"@,
        r.args.len() == 4,
        r.args[0]@ == "-d"@,
        r.args[1]@ == target@,
        r.args[2]@ == "-b"@,
        r.args[3]@ == chosen_sources(opt_view(sources)),
        r.timeout_secs == TIMEOUT_SECS,
{
    let s = sources_or_default(sources);
    let args: [&str; 4] = ["-d", target, "-b", s];
    crate::shell::run_timeout("theHarvester", &args, TIMEOUT_SECS)
}

/// The theHarvester report: a title line naming the sources, then its output as is.
pub open spec fn report(target: Seq<char>, sources: Seq<char>, output: Seq<char>) -> Seq<Piece> {
    title_pieces("theHarvester results for "@ + target + " (sources: "@ + sources + ")"@) + seq![
        (output, Look::Plain),
    ]
}

/// The report on theHarvester's output (emails, hosts and IPs found across
/// the sources), shown as the tool printed it.
pub fn run(target: &str, sources: Option<&str>, output: &str) -> (r: Vec<Span>)
    ensures
        r.deep_view() == report(target@, chosen_sources(opt_view(sources)), output@),
{
    let s = sources_or_default(sources);
    let mut title = owned("theHarvester results for ");
    crate::style::push_str(&mut title, target);
    crate::style::push_str(&mut title, " (sources: ");
    crate::style::push_str(&mut title, s);
    crate::style::push_str(&mut title, ")");
    let mut out: Vec<Span> = Vec::new();
    push_title(&mut out, title);
    push_span(&mut out, span(output, Look::Plain));
    proof {
        assert(out.deep_view() =~= report(target@, chosen_sources(opt_view(sources)), output@));
    }
    out
}

} // verus!
