use vstd::prelude::*;

use crate::shell::Invocation;
use crate::commands::listing::{
    fair_marker, filled, lemma_after_prefix, lemma_heading, lemma_listing_read_back, listing, no_break,
    one_line, push_listing,
};
use crate::style::shows;
use crate::text::{contains, lines, match_at};
use crate::ui::count_marked;
use crate::style::{push_title, span2, title_pieces, Look, Piece, Span};

verus! {

/// `amass enum -passive -d <target>`: passive mode only queries
/// third-party sources, never the target itself.
pub fn invocation(target: &str) -> (r: Invocation)
    ensures
        r.bin@ == "amass"@,
        r.args.len() == 4,
        r.args[0]@ == "enum"@,
        r.args[1]@ == "-passive"@,
        r.args[2]@ == "-d"@,
        r.args[3]@ == target@,
        r.timeout_secs == crate::shell::DEFAULT_TIMEOUT_SECS,
{
    let args: [&str; 4] = ["enum", "-passive", "-d", target];
    crate::shell::run("amass", &args)
}

/// The amass report: a title line, then the listing of the assets found.
pub open spec fn report(target: Seq<char>, output: Seq<char>) -> Seq<Piece> {
    title_pieces("amass (passive) results for "@ + target) + listing(
        output,
        " assets found:\n"@,
        "  (no assets found)\n"@,
    )
}

/// The report on amass's output: the assets it found, one per line.
pub fn run(target: &str, output: &str) -> (r: Vec<Span>)
    ensures
        r.deep_view() == report(target@, output@),
{
    let mut out: Vec<Span> = Vec::new();
    push_title(&mut out, span2("amass (passive) results for ", target, Look::Plain).text);
    push_listing(&mut out, output, " assets found:\n", "  (no assets found)\n");
    proof {
        assert(out.deep_view() =~= report(target@, output@));
    }
    out
}

/// What the dashboard reads back from a drawn amass report: the number of
/// assets it lists.
pub proof fn lemma_read_back(r: Seq<char>, target: Seq<char>, output: Seq<char>)
    requires
        shows(r, report(target, output)),
        no_break(target) || !contains(target, "assets found"@),
        filled(lines(output)).len() <= usize::MAX,
    ensures
        count_marked(lines(r), "assets found"@) == filled(lines(output)).len(),
{
    reveal_strlit("amass (passive) results for ");
    reveal_strlit("assets found");
    reveal_strlit(" assets found:\n");
    reveal_strlit("  (no assets found)\n");
    let m = "assets found"@;
    let lit = "amass (passive) results for "@;
    assert(one_line(lit)) by {
        reveal_with_fuel(one_line, 29);
    }
    if no_break(target) {
        lemma_heading(lit, target);
    } else {
        assert forall|i: int| 0 <= i < lit.len() implies !match_at(lit + target, m, i) by {
            let s = lit + target;
            if match_at(s, m, i) {
                let w = s.subrange(i, i + m.len());
                assert(w[0] == s[i] && w[1] == s[i + 1] && w[2] == s[i + 2] && w[3] == s[i + 3]);
            }
        }
        lemma_after_prefix(lit, target, m);
    }
    assert(fair_marker(m));
    assert(" assets found:\n"@ =~= seq![' '] + m + seq![':', '\n']);
    assert("  (no assets found)\n"@ =~= seq![' ', ' ', '(', 'n', 'o', ' '] + m + seq![')', '\n']);
    assert forall|j: int| 0 <= j < m.len() implies #[trigger] m[j] != '\n' by {}
    lemma_listing_read_back(r, "amass (passive) results for "@ + target, output, m);
}

} // verus!
