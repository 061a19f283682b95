use vstd::prelude::*;

use crate::commands::listing::{indented, push_indented};
use crate::shell::{Invocation, ShellError};
use crate::style::{push_span, push_title, span, span2, span3, title_pieces, Hue, Look, Piece, Span, Tone};
use crate::text::{chars_of, lines, split_lines, trim, trimmed};

verus! {

/// The record types looked up, in order.
pub open spec fn record_types() -> Seq<Seq<char>> {
    seq!["A"@, "AAAA"@, "MX"@, "NS"@, "TXT"@]
}

/// The lookups are, in order, the A, AAAA, MX, NS and TXT records.
pub proof fn lemma_record_types()
    ensures
        record_types().len() == 5,
        record_types()[0] == "A"@,
        record_types()[1] == "AAAA"@,
        record_types()[2] == "MX"@,
        record_types()[3] == "NS"@,
        record_types()[4] == "TXT"@,
{
}

fn record_type_names() -> (r: Vec<&'static str>)
    ensures
        r@.len() == 5,
        forall|k: int| 0 <= k < 5 ==> (#[trigger] r@[k])@ == record_types()[k],
{
    let mut r: Vec<&'static str> = Vec::new();
    r.push("A");
    r.push("AAAA");
    r.push("MX");
    r.push("NS");
    r.push("TXT");
    r
}

/// `dig +short <TYPE> <target>` for each record type, in order.
pub fn queries(target: &str) -> (r: Vec<Invocation>)
    ensures
        r@.len() == 5,
        forall|k: int|
            0 <= k < 5 ==> {
                let q = #[trigger] r@[k];
                &&& q.bin@ == "dig"@
                &&& q.args@.len() == 3
                &&& q.args@[0]@ == "+short"@
                &&& q.args@[1]@ == record_types()[k]
                &&& q.args@[2]@ == target@
                &&& q.timeout_secs == crate::shell::DEFAULT_TIMEOUT_SECS
            },
        r@[0].args@[1]@ == "A"@ && r@[1].args@[1]@ == "AAAA"@ && r@[2].args@[1]@ == "MX"@
            && r@[3].args@[1]@ == "NS"@ && r@[4].args@[1]@ == "TXT"@,
{
    proof {
        lemma_record_types();
    }
    let types = record_type_names();
    let mut r: Vec<Invocation> = Vec::new();
    let mut i: usize = 0;
    while i < 5
        invariant
            i <= 5,
            types@.len() == 5,
            forall|k: int| 0 <= k < 5 ==> (#[trigger] types@[k])@ == record_types()[k],
            r@.len() == i,
            forall|k: int|
                0 <= k < i ==> {
                    let q = #[trigger] r@[k];
                    &&& q.bin@ == "dig"@
                    &&& q.args@.len() == 3
                    &&& q.args@[0]@ == "+short"@
                    &&& q.args@[1]@ == record_types()[k]
                    &&& q.args@[2]@ == target@
                    &&& q.timeout_secs == crate::shell::DEFAULT_TIMEOUT_SECS
                },
        decreases 5 - i,
    {
        let args: [&str; 3] = ["+short", types[i], target];
        let q = crate::shell::run("dig", &args);
        r.push(q);
        i = i + 1;
    }
    r
}

/// The text shown for one lookup: its output, or the error in brackets.
pub open spec fn answer_text(a: Result<String, ShellError>) -> Seq<char> {
    match a {
        Ok(o) => o@,
        Err(e) => "(error: "@ + e.text() + ")"@,
    }
}

/// The part of the report for one record type.
pub open spec fn section(rtype: Seq<char>, answer: Seq<char>) -> Seq<Piece> {
    let t = trim(answer);
    seq![(rtype, Look::BoldFg(Tone::Dark(Hue::Yellow))), ("\n"@, Look::Plain)] + if t.len() == 0 {
        seq![("  (none)\n"@, Look::Plain)]
    } else {
        indented(lines(t))
    }
}

/// The sections of the first `n` record types.
pub open spec fn sections(answers: Seq<Result<String, ShellError>>, n: int) -> Seq<Piece>
    decreases n,
{
    if n <= 0 {
        seq![]
    } else {
        sections(answers, n - 1) + section(record_types()[n - 1], answer_text(answers[n - 1]))
    }
}

/// The DNS report: a title line, then one section per record type.
pub open spec fn report(target: Seq<char>, answers: Seq<Result<String, ShellError>>) -> Seq<Piece> {
    title_pieces("DNS records for "@ + target) + sections(answers, 5)
}

/// The DNS report: for each record type its answers, one per line, `(none)`
/// when there is none, or the error that the lookup gave.
pub fn run(target: &str, answers: &Vec<Result<String, ShellError>>) -> (r: Vec<Span>)
    requires
        answers@.len() == 5,
    ensures
        r.deep_view() == report(target@, answers@),
{
    let types = record_type_names();
    let mut out: Vec<Span> = Vec::new();
    push_title(&mut out, span2("DNS records for ", target, Look::Plain).text);
    let ghost head = out.deep_view();
    let mut i: usize = 0;
    while i < 5
        invariant
            i <= 5,
            answers@.len() == 5,
            types@.len() == 5,
            forall|k: int| 0 <= k < 5 ==> (#[trigger] types@[k])@ == record_types()[k],
            out.deep_view() == head + sections(answers@, i as int),
        decreases 5 - i,
    {
        let ghost before = out.deep_view();
        let text = match &answers[i] {
            Ok(o) => o.clone(),
            Err(e) => {
                let m = e.message();
                span3("(error: ", m.as_str(), ")", Look::Plain).text
            },
        };
        proof {
            assert(text@ == answer_text(answers@[i as int]));
        }
        let t = trimmed(&chars_of(text.as_str()));
        push_span(&mut out, span(types[i], Look::BoldFg(Tone::Dark(Hue::Yellow))));
        push_span(&mut out, span("\n", Look::Plain));
        if t.len() == 0 {
            push_span(&mut out, span("  (none)\n", Look::Plain));
        } else {
            let ls = split_lines(&t);
            push_indented(&mut out, &ls);
        }
        proof {
            assert(out.deep_view() =~= before + section(record_types()[i as int], answer_text(answers@[i as int])));
        }
        i = i + 1;
    }
    out
}

} // verus!
