use vstd::prelude::*;

use crate::shell::Invocation;
use crate::style::{push_span, push_title, span, span2, title_pieces, Look, Piece, Span};
use crate::text::{
    chars_of, lines, lowercase, matches_at, split_lines, starts_with, string_of, to_lowercase, trim,
    trimmed,
};

verus! {

/// The WHOIS fields kept in the cleaned-up summary.
pub open spec fn whois_keys() -> Seq<Seq<char>> {
    seq![
        "Domain Name"@,
        "Registrar"@,
        "Creation Date"@,
        "Registry Expiry Date"@,
        "Updated Date"@,
        "Name Server"@,
        "Registrant Country"@,
        "Domain Status"@,
    ]
}

fn field_keys() -> (r: Vec<&'static str>)
    ensures
        r@.len() == whois_keys().len(),
        forall|k: int| 0 <= k < r@.len() ==> (#[trigger] r@[k])@ == whois_keys()[k],
{
    let mut r: Vec<&'static str> = Vec::new();
    r.push("Domain Name");
    r.push("Registrar");
    r.push("Creation Date");
    r.push("Registry Expiry Date");
    r.push("Updated Date");
    r.push("Name Server");
    r.push("Registrant Country");
    r.push("Domain Status");
    r
}

/// A line of a WHOIS record is a summary field when, lowercased, it starts
/// with one of the field names, lowercased.
pub open spec fn is_field(line: Seq<char>) -> bool {
    exists|k: int|
        0 <= k < whois_keys().len() && starts_with(
            lowercase(line),
            lowercase(#[trigger] whois_keys()[k]),
        )
}

/// The summary lines: every field line, trimmed, in order.
pub open spec fn fields(ls: Seq<Seq<char>>) -> Seq<Piece>
    decreases ls.len(),
{
    if ls.len() == 0 {
        seq![]
    } else if is_field(ls.last()) {
        fields(ls.drop_last()).push((trim(ls.last()) + "\n"@, Look::Plain))
    } else {
        fields(ls.drop_last())
    }
}

/// Number of line breaks in `s`.
pub open spec fn count_nl(s: Seq<char>) -> nat
    decreases s.len(),
{
    if s.len() == 0 {
        0
    } else {
        count_nl(s.drop_last()) + if s.last() == '\n' {
            1nat
        } else {
            0nat
        }
    }
}

/// The cleaned-up summary of a WHOIS record. It falls back to the raw
/// record when the summary would be a single line, which is the case exactly
/// when the target holds no line break and no field matched.
pub open spec fn summary(target: Seq<char>, output: Seq<char>) -> Seq<Piece> {
    let fs = fields(lines(output));
    title_pieces("WHOIS summary for "@ + target) + fs + if count_nl(target) + fs.len() == 0 {
        seq![
            ("(no structured fields matched — showing raw output)\n\n"@, Look::Plain),
            (output, Look::Plain),
        ]
    } else {
        seq![]
    }
}

/// `whois <target>`.
pub fn invocation(target: &str) -> (r: Invocation)
    ensures
        r.bin@ == "whois"@,
        r.args.len() == 1,
        r.args[0]@ == target@,
        r.timeout_secs == crate::shell::DEFAULT_TIMEOUT_SECS,
{
    let args: [&str; 1] = [target];
    crate::shell::run("whois", &args)
}

fn field_line(line: &Vec<char>, keys: &Vec<&'static str>) -> (r: bool)
    requires
        keys@.len() == whois_keys().len(),
        forall|k: int| 0 <= k < keys@.len() ==> (#[trigger] keys@[k])@ == whois_keys()[k],
    ensures
        r == is_field(line@),
{
    let s = string_of(line);
    let lower = chars_of(to_lowercase(s.as_str()).as_str());
    let mut k: usize = 0;
    while k < keys.len()
        invariant
            k <= keys@.len(),
            keys@.len() == whois_keys().len(),
            forall|j: int| 0 <= j < keys@.len() ==> (#[trigger] keys@[j])@ == whois_keys()[j],
            lower@ == lowercase(line@),
            forall|j: int|
                0 <= j < k ==> !starts_with(lowercase(line@), lowercase(#[trigger] whois_keys()[j])),
        decreases keys@.len() - k,
    {
        let key = chars_of(to_lowercase(keys[k]).as_str());
        if matches_at(&lower, &key, 0) {
            proof {
                assert(keys@[k as int]@ == whois_keys()[k as int]);
            }
            return true;
        }
        proof {
            assert(keys@[k as int]@ == whois_keys()[k as int]);
        }
        k = k + 1;
    }
    false
}

/// The WHOIS report: the raw record with `raw`, else the cleaned-up summary.
pub fn run(target: &str, raw: bool, output: &str) -> (r: Vec<Span>)
    ensures
        raw ==> r.deep_view() == seq![(output@, Look::Plain)],
        !raw ==> r.deep_view() == summary(target@, output@),
{
    let mut out: Vec<Span> = Vec::new();
    if raw {
        push_span(&mut out, span(output, Look::Plain));
        proof {
            assert(out.deep_view() =~= seq![(output@, Look::Plain)]);
        }
        return out;
    }
    push_title(&mut out, span2("WHOIS summary for ", target, Look::Plain).text);
    let ghost head = out.deep_view();
    let keys = field_keys();
    let ls = split_lines(&chars_of(output));
    let mut matched: usize = 0;
    let mut i: usize = 0;
    proof {
        assert(ls.deep_view().take(0) =~= Seq::<Seq<char>>::empty());
        assert(head + fields(Seq::<Seq<char>>::empty()) =~= head);
    }
    while i < ls.len()
        invariant
            i <= ls.len(),
            ls.deep_view() == lines(output@),
            keys@.len() == whois_keys().len(),
            forall|k: int| 0 <= k < keys@.len() ==> (#[trigger] keys@[k])@ == whois_keys()[k],
            out.deep_view() == head + fields(ls.deep_view().take(i as int)),
            matched == fields(ls.deep_view().take(i as int)).len(),
            matched <= i,
        decreases ls.len() - i,
    {
        let ghost taken = ls.deep_view().take(i + 1);
        proof {
            assert(taken.drop_last() =~= ls.deep_view().take(i as int));
            assert(taken.last() == ls[i as int]@);
        }
        if field_line(&ls[i], &keys) {
            let t = trimmed(&ls[i]);
            let mut text = string_of(&t);
            crate::style::push_str(&mut text, "\n");
            push_span(&mut out, Span { text, look: Look::Plain });
            matched = matched + 1;
        }
        i = i + 1;
    }
    proof {
        assert(ls.deep_view().take(i as int) =~= ls.deep_view());
    }
    let tc = chars_of(target);
    let mut nl: usize = 0;
    let mut j: usize = 0;
    proof {
        assert(tc@.take(0) =~= Seq::<char>::empty());
    }
    while j < tc.len()
        invariant
            j <= tc.len(),
            nl <= j,
            nl == count_nl(tc@.take(j as int)),
        decreases tc.len() - j,
    {
        proof {
            assert(tc@.take(j + 1).drop_last() =~= tc@.take(j as int));
        }
        if tc[j] == '\n' {
            nl = nl + 1;
        }
        j = j + 1;
    }
    proof {
        assert(tc@.take(j as int) =~= target@);
    }
    let ghost body = out.deep_view();
    if nl == 0 && matched == 0 {
        push_span(
            &mut out,
            span("(no structured fields matched — showing raw output)\n\n", Look::Plain),
        );
        push_span(&mut out, span(output, Look::Plain));
    }
    proof {
        assert(out.deep_view() =~= summary(target@, output@));
    }
    out
}

proof fn lemma_fields_keep(ls: Seq<Seq<char>>, i: int)
    requires
        0 <= i < ls.len(),
        is_field(ls[i]),
    ensures
        fields(ls).contains((trim(ls[i]) + "\n"@, Look::Plain)),
    decreases ls.len(),
{
    let p = (trim(ls[i]) + "\n"@, Look::Plain);
    if i == ls.len() - 1 {
        let f = fields(ls.drop_last()).push(p);
        assert(f[f.len() - 1] == p);
    } else {
        assert(ls.drop_last()[i] == ls[i]);
        lemma_fields_keep(ls.drop_last(), i);
        let f0 = fields(ls.drop_last());
        let j = choose|j: int| 0 <= j < f0.len() && f0[j] == p;
        if is_field(ls.last()) {
            assert(fields(ls)[j] == f0[j]);
        } else {
            assert(fields(ls) == f0);
        }
    }
}

/// The cleaned-up summary keeps every line of the record that starts, in
/// any case, with one of the WHOIS field names Domain Name, Registrar,
/// Creation Date, Registry Expiry Date, Updated Date, Name Server,
/// Registrant Country or Domain Status: trimmed, on a line of its own.
pub proof fn lemma_summary_keeps_fields(target: Seq<char>, output: Seq<char>, i: int)
    requires
        0 <= i < lines(output).len(),
        ({
            let l = lowercase(lines(output)[i]);
            ||| starts_with(l, lowercase("Domain Name"@))
            ||| starts_with(l, lowercase("Registrar"@))
            ||| starts_with(l, lowercase("Creation Date"@))
            ||| starts_with(l, lowercase("Registry Expiry Date"@))
            ||| starts_with(l, lowercase("Updated Date"@))
            ||| starts_with(l, lowercase("Name Server"@))
            ||| starts_with(l, lowercase("Registrant Country"@))
            ||| starts_with(l, lowercase("Domain Status"@))
        }),
    ensures
        summary(target, output).contains((trim(lines(output)[i]) + "\n"@, Look::Plain)),
{
    let ls = lines(output);
    let l = lowercase(ls[i]);
    let ks = whois_keys();
    if starts_with(l, lowercase("Domain Name"@)) {
        assert(starts_with(lowercase(ls[i]), lowercase(ks[0])));
    } else if starts_with(l, lowercase("Registrar"@)) {
        assert(starts_with(lowercase(ls[i]), lowercase(ks[1])));
    } else if starts_with(l, lowercase("Creation Date"@)) {
        assert(starts_with(lowercase(ls[i]), lowercase(ks[2])));
    } else if starts_with(l, lowercase("Registry Expiry Date"@)) {
        assert(starts_with(lowercase(ls[i]), lowercase(ks[3])));
    } else if starts_with(l, lowercase("Updated Date"@)) {
        assert(starts_with(lowercase(ls[i]), lowercase(ks[4])));
    } else if starts_with(l, lowercase("Name Server"@)) {
        assert(starts_with(lowercase(ls[i]), lowercase(ks[5])));
    } else if starts_with(l, lowercase("Registrant Country"@)) {
        assert(starts_with(lowercase(ls[i]), lowercase(ks[6])));
    } else {
        assert(starts_with(lowercase(ls[i]), lowercase(ks[7])));
    }
    assert(is_field(ls[i]));
    lemma_fields_keep(ls, i);
    let fs = fields(ls);
    let p = (trim(ls[i]) + "\n"@, Look::Plain);
    let j = choose|j: int| 0 <= j < fs.len() && fs[j] == p;
    let head = title_pieces("WHOIS summary for "@ + target);
    let sm = summary(target, output);
    assert(sm[head.len() + j] == p);
}

} // verus!
