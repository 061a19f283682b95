use vstd::prelude::*;

use crate::shell::Invocation;
use crate::commands::listing::{
    fair_marker, filled, lemma_after_prefix, lemma_heading, lemma_listing_read_back, listing, no_break,
    one_line, push_listing,
};
use crate::style::shows;
use crate::text::{contains, lines, match_at};
use crate::ui::count_marked;
use crate::style::{push_title, span2, title_pieces, Look, Piece, Span};

verus! {

/// `subfinder -d <target> -silent`: passive subdomain enumeration.
pub fn invocation(target: &str) -> (r: Invocation)
    ensures
        r.bin@ == "subfinder"@,
        r.args.len() == 3,
        r.args[0]@ == "-d"@,
        r.args[1]@ == target@,
        r.args[2]@ == "-silent"@,
        r.timeout_secs == crate::shell::DEFAULT_TIMEOUT_SECS,
{
    let args: [&str; 3] = ["-d", target, "-silent"];
    crate::shell::run("subfinder", &args)
}

/// The subfinder report: a title line, then the listing of the subdomains found.
pub open spec fn report(target: Seq<char>, output: Seq<char>) -> Seq<Piece> {
    title_pieces("subfinder results for "@ + target) + listing(
        output,
        " subdomains found:\n"@,
        "  (no subdomains found)\n"@,
    )
}

/// The report on subfinder's output: the subdomains it found, one per line.
pub fn run(target: &str, output: &str) -> (r: Vec<Span>)
    ensures
        r.deep_view() == report(target@, output@),
{
    let mut out: Vec<Span> = Vec::new();
    push_title(&mut out, span2("subfinder results for ", target, Look::Plain).text);
    push_listing(&mut out, output, " subdomains found:\n", "  (no subdomains found)\n");
    proof {
        assert(out.deep_view() =~= report(target@, output@));
    }
    out
}

/// What the dashboard reads back from a drawn subfinder report: the number
/// of subdomains it lists.
pub proof fn lemma_read_back(r: Seq<char>, target: Seq<char>, output: Seq<char>)
    requires
        shows(r, report(target, output)),
        no_break(target) || !contains(target, "subdomains found"@),
        filled(lines(output)).len() <= usize::MAX,
    ensures
        count_marked(lines(r), "subdomains found"@) == filled(lines(output)).len(),
{
    reveal_strlit("subfinder results for ");
    reveal_strlit("subdomains found");
    reveal_strlit(" subdomains found:\n");
    reveal_strlit("  (no subdomains found)\n");
    let m = "subdomains found"@;
    let lit = "subfinder results for "@;
    assert(one_line(lit)) by {
        reveal_with_fuel(one_line, 23);
    }
    if no_break(target) {
        lemma_heading(lit, target);
    } else {
        assert forall|i: int| 0 <= i < lit.len() implies !match_at(lit + target, m, i) by {
            let s = lit + target;
            if match_at(s, m, i) {
                let w = s.subrange(i, i + m.len());
                assert(w[0] == s[i] && w[1] == s[i + 1] && w[2] == s[i + 2] && w[3] == s[i + 3]);
            }
        }
        lemma_after_prefix(lit, target, m);
    }
    assert(fair_marker(m));
    assert(" subdomains found:\n"@ =~= seq![' '] + m + seq![':', '\n']);
    assert("  (no subdomains found)\n"@ =~= seq![' ', ' ', '(', 'n', 'o', ' '] + m + seq![')', '\n']);
    assert forall|j: int| 0 <= j < m.len() implies #[trigger] m[j] != '\n' by {}
    lemma_listing_read_back(r, "subfinder results for "@ + target, output, m);
}

} // verus!
