use vstd::prelude::*;

use crate::commands::listing::{
    fair_marker, indented, lemma_after_prefix, lemma_counted_read_back, lemma_heading,
    lemma_indented_plain, no_break, one_line,
    push_indented,
};
use crate::style::shows;
use crate::text::{contains, is_dec_digit, lemma_contains_wrapped, lemma_decimal, lines, match_at};
use crate::ui::{count_line, count_marked};
use crate::json::{as_text, get_item, item, json_of, parse_json, text_of, Json};
use crate::shell::Invocation;
use crate::style::{push_span, push_str, push_title, span, span3, title_pieces, Look, Piece, Span};
use crate::text::{chars_of, decimal, decimal_string, owned};

verus! {

/// The CDX query for the URLs archived under the target domain, at most
/// `limit` rows.
pub open spec fn query_url(target: Seq<char>, limit: u32) -> Seq<char> {
    "https://web.archive.org/cdx/search/cdx?url="@ + target
        + "/*&output=json&fl=original&collapse=urlkey&limit="@ + decimal(limit as nat)
}

/// The URL of the CDX query for the target's archived URLs.
pub fn url(target: &str, limit: u32) -> (r: String)
    ensures
        r@ == query_url(target@, limit),
{
    let mut u = owned("https://web.archive.org/cdx/search/cdx?url=");
    push_str(&mut u, target);
    push_str(&mut u, "/*&output=json&fl=original&collapse=urlkey&limit=");
    let d = decimal_string(limit as u64);
    push_str(&mut u, d.as_str());
    u
}

/// curl fetching the CDX query.
pub fn invocation(target: &str, limit: u32) -> (r: Invocation)
    ensures
        r.bin@ == "curl"@,
        r.args.len() == 4,
        r.args[3]@ == query_url(target@, limit),
        r.timeout_secs == 18,
{
    let u = url(target, limit);
    crate::shell::curl(u.as_str())
}

/// The first column of each row that has a string there.
pub open spec fn row_urls(rows: Seq<Json>) -> Seq<Seq<char>>
    decreases rows.len(),
{
    if rows.len() == 0 {
        seq![]
    } else {
        let rest = row_urls(rows.drop_last());
        match text_of(item(rows.last(), 0)) {
            Some(u) => rest.push(u),
            None => rest,
        }
    }
}

/// The rows of the CDX reply after its header row, if the reply is an array
/// with more than the header.
pub open spec fn data_rows(body: Seq<char>) -> Option<Seq<Json>> {
    match json_of(body) {
        Some(Json::Array(rows)) => if rows@.len() > 1 {
            Some(rows@.skip(1))
        } else {
            None
        },
        _ => None,
    }
}

/// The Wayback report: a title line with the limit, then the archived URLs
/// under their count, or a count of 0 when the reply holds no data rows.
pub open spec fn report(target: Seq<char>, limit: u32, body: Seq<char>) -> Seq<Piece> {
    title_pieces(
        "Wayback Machine URLs for "@ + target + " (limit "@ + decimal(limit as nat) + ")"@,
    ) + match data_rows(body) {
        Some(rows) => {
            let us = row_urls(rows);
            seq![("  "@ + decimal(us.len()) + " archived URLs found:\n"@, Look::Plain)] + indented(us)
        },
        None => seq![("  0 archived URLs found\n"@, Look::Plain)],
    }
}

/// The Wayback Machine report: the archived URLs in the CDX reply (its
/// first row is the column header).
pub fn run(target: &str, limit: u32, body: &str) -> (r: Vec<Span>)
    ensures
        r.deep_view() == report(target@, limit, body@),
{
    let mut title = owned("Wayback Machine URLs for ");
    push_str(&mut title, target);
    push_str(&mut title, " (limit ");
    let d = decimal_string(limit as u64);
    push_str(&mut title, d.as_str());
    push_str(&mut title, ")");
    let mut out: Vec<Span> = Vec::new();
    push_title(&mut out, title);
    let ghost head = out.deep_view();
    let parsed = parse_json(body);
    let rows = match &parsed {
        Some(Json::Array(rows)) => if rows.len() > 1 {
            Some(rows)
        } else {
            None
        },
        _ => None,
    };
    match rows {
        None => {
            push_span(&mut out, span("  0 archived URLs found\n", Look::Plain));
        },
        Some(rows) => {
            let ghost data = rows@.skip(1);
            let mut urls: Vec<Vec<char>> = Vec::new();
            let mut i: usize = 1;
            proof {
                assert(data.take(0) =~= Seq::<Json>::empty());
                assert(urls.deep_view() =~= Seq::<Seq<char>>::empty());
            }
            while i < rows.len()
                invariant
                    1 <= i <= rows@.len(),
                    data == rows@.skip(1),
                    urls.deep_view() == row_urls(data.take(i - 1)),
                decreases rows@.len() - i,
            {
                let ghost before = urls.deep_view();
                proof {
                    let taken = data.take(i as int);
                    assert(taken.drop_last() =~= data.take(i - 1));
                    assert(taken.last() == rows@[i as int]);
                }
                match as_text(get_item(&rows[i], 0)) {
                    Some(u) => {
                        let c = chars_of(u.as_str());
                        proof {
                            assert(c.deep_view() =~= c@);
                        }
                        urls.push(c);
                        proof {
                            assert(urls.deep_view() =~= before.push(u@));
                        }
                    },
                    None => {},
                }
                i = i + 1;
            }
            proof {
                assert(data.take(i - 1) =~= data);
            }
            let n = decimal_string(urls.len() as u64);
            push_span(&mut out, span3("  ", n.as_str(), " archived URLs found:\n", Look::Plain));
            push_indented(&mut out, &urls);
        },
    }
    proof {
        assert(out.deep_view() =~= report(target@, limit, body@));
    }
    out
}

/// What the dashboard reads back from a drawn Wayback report: the number of
/// archived URLs it lists, 0 when the reply had no data rows.
pub proof fn lemma_read_back(r: Seq<char>, target: Seq<char>, limit: u32, body: Seq<char>)
    requires
        shows(r, report(target, limit, body)),
        no_break(target) || !contains(target, "archived URLs found"@),
        data_rows(body) matches Some(rows) ==> row_urls(rows).len() <= usize::MAX,
    ensures
        count_marked(lines(r), "archived URLs found"@) == match data_rows(body) {
            Some(rows) => row_urls(rows).len(),
            None => 0,
        },
{
    reveal_strlit("Wayback Machine URLs for ");
    reveal_strlit(" (limit ");
    reveal_strlit(")");
    reveal_strlit("  ");
    reveal_strlit("archived URLs found");
    reveal_strlit(" archived URLs found:\n");
    reveal_strlit("  0 archived URLs found\n");
    let m = "archived URLs found"@;
    let lit = "Wayback Machine URLs for "@;
    let d = decimal(limit as nat);
    let tail = target + " (limit "@ + d + ")"@;
    assert(one_line(lit)) by {
        reveal_with_fuel(one_line, 26);
    }
    lemma_decimal(limit as nat);
    let suffix = " (limit "@ + d + ")"@;
    assert(tail =~= target + suffix);
    assert forall|j: int| 0 <= j < suffix.len() implies #[trigger] suffix[j] != '\n' && suffix[j] != 'd' by {
        if j < 8 {
            assert(suffix[j] == " (limit "@[j]);
        } else if j < 8 + d.len() {
            assert(suffix[j] == d[j - 8]);
            assert(is_dec_digit(d[j - 8]));
        } else {
            assert(suffix[j] == ')');
        }
    }
    if no_break(target) {
        assert forall|j: int| 0 <= j < tail.len() implies #[trigger] tail[j] != '\n' by {
            if j < target.len() {
                assert(tail[j] == target[j]);
            } else {
                assert(tail[j] == suffix[j - target.len()]);
            }
        }
        lemma_heading(lit, tail);
    } else {
        assert(!contains(tail, m)) by {
            assert forall|i: int| 0 <= i < Seq::<char>::empty().len() implies #[trigger] Seq::<
                char,
            >::empty()[i] != m[0] by {}
            assert forall|i: int| 0 <= i < suffix.len() implies #[trigger] suffix[i] != m[m.len() - 1] by {}
            assert(Seq::<char>::empty() + target + suffix =~= tail);
            lemma_contains_wrapped(Seq::<char>::empty(), target, suffix, m);
        }
        assert forall|i: int| 0 <= i < lit.len() implies !match_at(lit + tail, m, i) by {
            let s = lit + tail;
            if match_at(s, m, i) {
                let w = s.subrange(i, i + m.len());
                assert(w[0] == s[i] && w[1] == s[i + 1] && w[2] == s[i + 2] && w[3] == s[i + 3]);
            }
        }
        lemma_after_prefix(lit, tail, m);
    }
    assert(fair_marker(m));
    let title = lit + tail;
    assert(title =~= lit + target + " (limit "@ + d + ")"@);
    assert forall|j: int| 0 <= j < m.len() implies #[trigger] m[j] != '\n' by {}
    match data_rows(body) {
        Some(rows) => {
            let us = row_urls(rows);
            let end = seq![':'];
            assert forall|j: int| 0 <= j < (m + end).len() implies #[trigger] (m + end)[j] != '\n' by {}
            assert("  "@ + decimal(us.len()) + " archived URLs found:\n"@ =~= count_line(us.len(), m, end)
                + seq!['\n']);
            lemma_indented_plain(us);
            lemma_counted_read_back(r, title, us.len(), m, end, indented(us));
        },
        None => {
            let end = Seq::<char>::empty();
            assert(m + end =~= m);
            lemma_decimal(0);
            assert(decimal(0) =~= seq!['0']);
            assert("  0 archived URLs found\n"@ =~= count_line(0, m, end) + seq!['\n']);
            assert(report(target, limit, body) =~= title_pieces(title) + (seq![
                (count_line(0, m, end) + seq!['\n'], Look::Plain),
            ] + Seq::<Piece>::empty()));
            lemma_counted_read_back(r, title, 0, m, end, Seq::<Piece>::empty());
        },
    }
}

} // verus!
