use vstd::prelude::*;

use crate::commands::listing::{
    indented, lemma_counted_read_back, lemma_heading, lemma_indented_plain, lemma_uncounted_read_back,
    fair_marker, lemma_after_prefix, no_break, one_line, push_indented,
};
use crate::style::shows;
use crate::text::{contains, lemma_trim_len, match_at};
use crate::ui::{count_line, count_marked, lemma_no_leading_number, lemma_trim_head, lemma_trim_indent};
use crate::json::{as_text, get_member, json_of, member, parse_json, text_of, Json};
use crate::shell::Invocation;
use crate::sorted::{insert_sorted, lemma_sorted_unique, strictly_sorted};
use crate::style::{push_span, push_title, span, span2, span3, title_pieces, Look, Piece, Span};
use crate::text::{
    chars_of, decimal, decimal_string, lines, lowercase, split_lines, string_of, to_lowercase, trim,
    trim_range,
};

verus! {

/// crt.sh's search for every name under the target domain, as JSON.
pub fn url(target: &str) -> (r: String)
    ensures
        r@ == "https://crt.sh/?q=%25."@ + target@ + "&output=json"@,
{
    span3("https://crt.sh/?q=%25.", target, "&output=json", Look::Plain).text
}

/// curl fetching the crt.sh search.
pub fn invocation(target: &str) -> (r: Invocation)
    ensures
        r.bin@ == "curl"@,
        r.args.len() == 4,
        r.args[3]@ == "https://crt.sh/?q=%25."@ + target@ + "&output=json"@,
        r.timeout_secs == 18,
{
    let u = url(target);
    crate::shell::curl(u.as_str())
}

/// `s.trim_start_matches("*.")`: every leading `*.` removed.
pub open spec fn wild_stripped(s: Seq<char>) -> Seq<char>
    decreases s.len(),
{
    if s.len() >= 2 && s[0] == '*' && s[1] == '.' {
        wild_stripped(s.skip(2))
    } else {
        s
    }
}

/// Stripping wildcards leaves no leading `*.`, and removes only a run of
/// `*.` pairs from the front: what is left is the end of the name.
pub proof fn lemma_wild_stripped(s: Seq<char>)
    ensures
        !(wild_stripped(s).len() >= 2 && wild_stripped(s)[0] == '*' && wild_stripped(s)[1] == '.'),
        wild_stripped(s) == s.skip(s.len() - wild_stripped(s).len()),
        wild_stripped(s).len() <= s.len(),
        (s.len() - wild_stripped(s).len()) % 2 == 0,
        forall|j: int|
            0 <= j < s.len() - wild_stripped(s).len() ==> #[trigger] s[j] == if j % 2 == 0 {
                '*'
            } else {
                '.'
            },
    decreases s.len(),
{
    if s.len() >= 2 && s[0] == '*' && s[1] == '.' {
        let t = s.skip(2);
        lemma_wild_stripped(t);
        assert(t.skip(t.len() - wild_stripped(t).len()) =~= s.skip(s.len() - wild_stripped(s).len()));
        assert forall|j: int| 0 <= j < s.len() - wild_stripped(s).len() implies #[trigger] s[j] == if j
            % 2 == 0 {
            '*'
        } else {
            '.'
        } by {
            if j >= 2 {
                assert(s[j] == t[j - 2]);
            }
        }
    } else {
        assert(s.skip(0) =~= s);
    }
}

/// The name a line of a certificate's `name_value` stands for: trimmed,
/// wildcard prefixes removed, lowercased.
pub open spec fn cert_name(line: Seq<char>) -> Seq<char> {
    lowercase(wild_stripped(trim(line)))
}

/// The names on the lines of one `name_value`, wildcards stripped, lowercased.
pub open spec fn names_in_lines(ls: Seq<Seq<char>>) -> Seq<Seq<char>>
    decreases ls.len(),
{
    if ls.len() == 0 {
        seq![]
    } else {
        names_in_lines(ls.drop_last()).push(cert_name(ls.last()))
    }
}

/// The names of one certificate entry: one per line of its `name_value`.
pub open spec fn entry_names(e: Json) -> Seq<Seq<char>> {
    match text_of(member(e, "name_value"@)) {
        Some(nv) => names_in_lines(lines(nv)),
        None => seq![],
    }
}

/// The names of all entries, entry by entry.
pub open spec fn all_names(es: Seq<Json>) -> Seq<Seq<char>>
    decreases es.len(),
{
    if es.len() == 0 {
        seq![]
    } else {
        all_names(es.drop_last()) + entry_names(es.last())
    }
}

/// `r` lists the distinct non-empty names in ascending order.
pub open spec fn lists_names(r: Seq<Seq<char>>, names: Seq<Seq<char>>) -> bool {
    &&& strictly_sorted(r)
    &&& forall|y: Seq<char>| r.contains(y) <==> (names.contains(y) && y.len() > 0)
}

/// The distinct non-empty names in ascending order.
pub open spec fn name_set(names: Seq<Seq<char>>) -> Seq<Seq<char>> {
    choose|r: Seq<Seq<char>>| lists_names(r, names)
}

/// The certificate report: the distinct names in ascending order under their
/// count, `0 names found` when there are none, or a note when crt.sh's reply
/// is not a JSON array.
pub open spec fn report(target: Seq<char>, body: Seq<char>) -> Seq<Piece> {
    title_pieces("Certificate transparency results for "@ + target) + match json_of(body) {
        Some(Json::Array(es)) => {
            let set = name_set(all_names(es@));
            if set.len() == 0 {
                seq![("  0 names found\n"@, Look::Plain)]
            } else {
                seq![("  "@ + decimal(set.len()) + " unique names found:\n"@, Look::Plain)]
                    + indented(set)
            }
        },
        _ => seq![
            ("  (crt.sh returned no parseable data — it may be rate-limiting; try again shortly)\n"@, Look::Plain),
        ],
    }
}

fn name_of_line(line: &Vec<char>) -> (r: Vec<char>)
    ensures
        r@ == cert_name(line@),
{
    let (a0, b) = trim_range(line, 0, line.len());
    proof {
        assert(line@.subrange(0, line@.len() as int) =~= line@);
    }
    let mut a = a0;
    while b - a >= 2 && line[a] == '*' && line[a + 1] == '.'
        invariant
            a0 <= a <= b <= line@.len(),
            wild_stripped(line@.subrange(a0 as int, b as int)) == wild_stripped(
                line@.subrange(a as int, b as int),
            ),
        decreases b - a,
    {
        proof {
            let s = line@.subrange(a as int, b as int);
            assert(s[0] == line@[a as int] && s[1] == line@[a + 1]);
            assert(s.skip(2) =~= line@.subrange(a + 2, b as int));
        }
        a = a + 2;
    }
    let s = string_of(&crate::text::slice_range(line, a, b));
    chars_of(to_lowercase(s.as_str()).as_str())
}

/// Adds the names of one entry to the ascending set `set`.
fn add_entry_names(set: &mut Vec<Vec<char>>, e: &Json, Ghost(seen): Ghost<Seq<Seq<char>>>)
    requires
        strictly_sorted(old(set).deep_view()),
        forall|y: Seq<char>|
            old(set).deep_view().contains(y) <==> (seen.contains(y) && y.len() > 0),
    ensures
        strictly_sorted(final(set).deep_view()),
        forall|y: Seq<char>|
            final(set).deep_view().contains(y) <==> ((seen + entry_names(*e)).contains(y) && y.len()
                > 0),
{
    match as_text(get_member(e, "name_value")) {
        None => {
            proof {
                assert(text_of(member(*e, "name_value"@)) is None);
                assert(entry_names(*e) =~= Seq::<Seq<char>>::empty());
                assert(seen + entry_names(*e) =~= seen);
                assert(set.deep_view() == old(set).deep_view());
                assert forall|y: Seq<char>|
                    set.deep_view().contains(y) <==> ((seen + entry_names(*e)).contains(y)
                        && y.len() > 0) by {}
            }
        },
        Some(nv) => {
            let ls = split_lines(&chars_of(nv.as_str()));
            let ghost lv = ls.deep_view();
            let mut j: usize = 0;
            proof {
                assert(lv.take(0) =~= Seq::<Seq<char>>::empty());
                assert(seen + names_in_lines(lv.take(0)) =~= seen);
            }
            while j < ls.len()
                invariant
                    j <= ls.len(),
                    lv == ls.deep_view(),
                    lv == lines(nv@),
                    entry_names(*e) == names_in_lines(lv),
                    strictly_sorted(set.deep_view()),
                    forall|y: Seq<char>|
                        set.deep_view().contains(y) <==> ((seen + names_in_lines(
                            lv.take(j as int),
                        )).contains(y) && y.len() > 0),
                decreases ls.len() - j,
            {
                let ghost acc = seen + names_in_lines(lv.take(j as int));
                let n = name_of_line(&ls[j]);
                let ghost nvw = n@;
                proof {
                    let taken = lv.take(j + 1);
                    assert(taken.drop_last() =~= lv.take(j as int));
                    assert(taken.last() == ls[j as int]@);
                    assert(seen + names_in_lines(taken) =~= acc.push(nvw));
                }
                if n.len() > 0 {
                    insert_sorted(set, n);
                    proof {
                        assert forall|y: Seq<char>|
                            set.deep_view().contains(y) <==> (acc.push(nvw).contains(y) && y.len()
                                > 0) by {
                            if acc.push(nvw).contains(y) {
                                let k = choose|k: int|
                                    0 <= k < acc.push(nvw).len() && acc.push(nvw)[k] == y;
                                if k < acc.len() {
                                    assert(acc.contains(y));
                                }
                            }
                            if acc.contains(y) {
                                let k = choose|k: int| 0 <= k < acc.len() && acc[k] == y;
                                assert(acc.push(nvw)[k] == y);
                            }
                            if y == nvw {
                                assert(acc.push(nvw)[acc.len() as int] == y);
                            }
                        }
                    }
                } else {
                    proof {
                        assert forall|y: Seq<char>|
                            set.deep_view().contains(y) <==> (acc.push(nvw).contains(y) && y.len()
                                > 0) by {
                            if acc.push(nvw).contains(y) && y.len() > 0 {
                                let k = choose|k: int|
                                    0 <= k < acc.push(nvw).len() && acc.push(nvw)[k] == y;
                                if k < acc.len() {
                                    assert(acc.contains(y));
                                }
                            }
                            if acc.contains(y) {
                                let k = choose|k: int| 0 <= k < acc.len() && acc[k] == y;
                                assert(acc.push(nvw)[k] == y);
                            }
                        }
                    }
                }
                j = j + 1;
            }
            proof {
                assert(lv.take(j as int) =~= lv);
                assert(seen + names_in_lines(lv) == seen + entry_names(*e));
                assert forall|y: Seq<char>|
                    set.deep_view().contains(y) <==> ((seen + entry_names(*e)).contains(y)
                        && y.len() > 0) by {}
            }
        },
    }
}

/// The certificate-transparency report: every distinct name that ever had a
/// public certificate under the target domain, ascending, or a note when
/// crt.sh sent nothing usable.
pub fn run(target: &str, body: &str) -> (r: Vec<Span>)
    ensures
        r.deep_view() == report(target@, body@),
{
    let mut out: Vec<Span> = Vec::new();
    push_title(&mut out, span2("Certificate transparency results for ", target, Look::Plain).text);
    let parsed = parse_json(body);
    match &parsed {
        Some(Json::Array(es)) => {
            let mut set: Vec<Vec<char>> = Vec::new();
            let mut i: usize = 0;
            proof {
                assert(es@.take(0) =~= Seq::<Json>::empty());
                assert(set.deep_view() =~= Seq::<Seq<char>>::empty());
            }
            while i < es.len()
                invariant
                    i <= es@.len(),
                    strictly_sorted(set.deep_view()),
                    forall|y: Seq<char>|
                        set.deep_view().contains(y) <==> (all_names(es@.take(i as int)).contains(y)
                            && y.len() > 0),
                decreases es@.len() - i,
            {
                let ghost seen = all_names(es@.take(i as int));
                add_entry_names(&mut set, &es[i], Ghost(seen));
                proof {
                    let taken = es@.take(i + 1);
                    assert(taken.drop_last() =~= es@.take(i as int));
                    assert(taken.last() == es@[i as int]);
                }
                i = i + 1;
            }
            proof {
                assert(es@.take(i as int) =~= es@);
                let names = all_names(es@);
                assert(lists_names(set.deep_view(), names));
                lemma_sorted_unique(set.deep_view(), name_set(names));
            }
            if set.len() == 0 {
                push_span(&mut out, span("  0 names found\n", Look::Plain));
            } else {
                let n = decimal_string(set.len() as u64);
                push_span(&mut out, span3("  ", n.as_str(), " unique names found:\n", Look::Plain));
                push_indented(&mut out, &set);
            }
        },
        _ => {
            push_span(
                &mut out,
                span(
                    "  (crt.sh returned no parseable data — it may be rate-limiting; try again shortly)\n",
                    Look::Plain,
                ),
            );
        },
    }
    proof {
        assert(out.deep_view() =~= report(target@, body@));
    }
    out
}

/// What the dashboard reads back from a drawn certificate report: the
/// number of distinct names it lists, 0 when crt.sh's reply did not parse.
pub proof fn lemma_read_back(r: Seq<char>, target: Seq<char>, body: Seq<char>)
    requires
        shows(r, report(target, body)),
        no_break(target) || !contains(target, "unique names found"@),
        json_of(body) matches Some(Json::Array(es)) ==> name_set(all_names(es@)).len() <= usize::MAX,
    ensures
        count_marked(lines(r), "unique names found"@) == match json_of(body) {
            Some(Json::Array(es)) => name_set(all_names(es@)).len(),
            _ => 0,
        },
{
    reveal_strlit("Certificate transparency results for ");
    reveal_strlit("  ");
    reveal_strlit("unique names found");
    reveal_strlit(" unique names found:\n");
    reveal_strlit("  0 names found\n");
    reveal_strlit("  (crt.sh returned no parseable data — it may be rate-limiting; try again shortly)\n");
    let m = "unique names found"@;
    let lit = "Certificate transparency results for "@;
    assert(one_line(lit)) by {
        reveal_with_fuel(one_line, 38);
    }
    if no_break(target) {
        lemma_heading(lit, target);
    } else {
        assert forall|i: int| 0 <= i < lit.len() implies !match_at(lit + target, m, i) by {
            let s = lit + target;
            if match_at(s, m, i) {
                let w = s.subrange(i, i + m.len());
                assert(w[0] == s[i] && w[1] == s[i + 1] && w[2] == s[i + 2] && w[3] == s[i + 3]);
            }
        }
        lemma_after_prefix(lit, target, m);
    }
    assert(fair_marker(m));
    let title = lit + target;
    assert forall|j: int| 0 <= j < m.len() implies #[trigger] m[j] != '\n' by {}
    match json_of(body) {
        Some(Json::Array(es)) => {
            let set = name_set(all_names(es@));
            if set.len() == 0 {
                let l = seq![' ', ' ', '0', ' ', 'n', 'a', 'm', 'e', 's', ' ', 'f', 'o', 'u', 'n', 'd'];
                assert("  0 names found\n"@ =~= l + seq!['\n']);
                lemma_trim_len(l);
                assert forall|j: int| 0 <= j < l.len() implies #[trigger] l[j] != '\n' by {}
                lemma_uncounted_read_back(r, title, l, m);
            } else {
                let end = seq![':'];
                assert forall|j: int| 0 <= j < (m + end).len() implies #[trigger] (m + end)[j] != '\n' by {}
                assert("  "@ + decimal(set.len()) + " unique names found:\n"@ =~= count_line(
                    set.len(),
                    m,
                    end,
                ) + seq!['\n']);
                lemma_indented_plain(set);
                lemma_counted_read_back(r, title, set.len(), m, end, indented(set));
            }
        },
        _ => {
            let whole = "  (crt.sh returned no parseable data — it may be rate-limiting; try again shortly)\n"@;
            let l = whole.drop_last();
            assert(whole =~= l + seq!['\n']);
            assert forall|j: int| 0 <= j < l.len() implies #[trigger] l[j] != '\n' by {
                assert(l[j] == whole[j]);
            }
            let u = l.skip(2);
            assert(l =~= seq![' ', ' '] + u);
            assert(u[0] == '(');
            lemma_trim_indent(u);
            lemma_trim_head(u);
            lemma_no_leading_number(trim(l));
            lemma_uncounted_read_back(r, title, l, m);
        },
    }
}

} // verus!
