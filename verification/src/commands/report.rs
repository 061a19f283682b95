use vstd::prelude::*;

use crate::style::push_str;
use crate::text::{confined, owned, push_confined};
use crate::ui::{rep, repeat_char};

verus! {

/// The directory reports are written to.
pub const DIRECTORY: &'static str = "osint-reports";

/// One section of a saved report: its title as a heading over a rule, then
/// its content.
pub open spec fn section_text(title: Seq<char>, content: Seq<char>) -> Seq<char> {
    "\n## "@ + title + "\n"@ + rep('-', 40) + "\n\n"@ + content + "\n"@
}

/// The sections one after the other.
pub open spec fn sections_text(ss: Seq<(Seq<char>, Seq<char>)>) -> Seq<char>
    decreases ss.len(),
{
    if ss.len() == 0 {
        seq![]
    } else {
        sections_text(ss.drop_last()) + section_text(ss.last().0, ss.last().1)
    }
}

/// Titles and contents by their characters.
pub open spec fn section_views(ss: Seq<(&str, String)>) -> Seq<(Seq<char>, Seq<char>)> {
    ss.map_values(|p: (&str, String)| (p.0@, p.1@))
}

/// The text of a combined report: a heading with the target and the time it
/// was generated, then each section under its title.
pub open spec fn report_text(
    target: Seq<char>,
    generated: Seq<char>,
    ss: Seq<(Seq<char>, Seq<char>)>,
) -> Seq<char> {
    "OSINT report for "@ + target + "\nGenerated: "@ + generated + "\n"@ + rep('=', 60) + "\n\n"@
        + sections_text(ss)
}

/// A report of no sections is its heading: the target, the time it was
/// generated, and a rule.
pub proof fn lemma_report_empty(target: Seq<char>, generated: Seq<char>)
    ensures
        report_text(target, generated, Seq::<(Seq<char>, Seq<char>)>::empty()) == "OSINT report for "@
            + target + "\nGenerated: "@ + generated + "\n"@ + rep('=', 60) + "\n\n"@,
{
    assert(report_text(target, generated, Seq::<(Seq<char>, Seq<char>)>::empty()) =~= "OSINT report for "@
        + target + "\nGenerated: "@ + generated + "\n"@ + rep('=', 60) + "\n\n"@);
}

/// One more section adds its title as a heading over a rule and then its
/// content at the end of the report, and leaves what was there unchanged.
pub proof fn lemma_report_add_section(
    target: Seq<char>,
    generated: Seq<char>,
    ss: Seq<(Seq<char>, Seq<char>)>,
    title: Seq<char>,
    content: Seq<char>,
)
    ensures
        report_text(target, generated, ss.push((title, content))) == report_text(target, generated, ss)
            + "\n## "@ + title + "\n"@ + rep('-', 40) + "\n\n"@ + content + "\n"@,
{
    let x = (title, content);
    assert(ss.push(x).drop_last() =~= ss);
    assert(ss.push(x).last() == x);
    assert(report_text(target, generated, ss.push(x)) =~= report_text(target, generated, ss)
        + "\n## "@ + title + "\n"@ + rep('-', 40) + "\n\n"@ + content + "\n"@);
}

/// The sections of two runs one after the other are the sections of the
/// first run, then those of the second.
pub proof fn lemma_sections_append(a: Seq<(Seq<char>, Seq<char>)>, b: Seq<(Seq<char>, Seq<char>)>)
    ensures
        sections_text(a + b) == sections_text(a) + sections_text(b),
    decreases b.len(),
{
    if b.len() == 0 {
        assert(a + b =~= a);
        assert(sections_text(a) + sections_text(b) =~= sections_text(a));
    } else {
        lemma_sections_append(a, b.drop_last());
        assert((a + b).drop_last() =~= a + b.drop_last());
        assert((a + b).last() == b.last());
        assert(sections_text(a + b) =~= sections_text(a) + sections_text(b));
    }
}

/// The combined report for `target`, generated at `generated` (an RFC 2822
/// date), holding `sections` as (title, content) pairs in order.
pub fn body(target: &str, generated: &str, sections: &[(&str, String)]) -> (r: String)
    ensures
        r@ == report_text(target@, generated@, section_views(sections@)),
{
    let mut b = owned("OSINT report for ");
    push_str(&mut b, target);
    push_str(&mut b, "\nGenerated: ");
    push_str(&mut b, generated);
    push_str(&mut b, "\n");
    let eq = repeat_char('=', 60);
    push_str(&mut b, eq.as_str());
    push_str(&mut b, "\n\n");
    let ghost head = b@;
    let ghost sv = section_views(sections@);
    let mut i: usize = 0;
    proof {
        assert(sv.take(0) =~= Seq::<(Seq<char>, Seq<char>)>::empty());
        assert(head + sections_text(sv.take(0)) =~= head);
    }
    while i < sections.len()
        invariant
            i <= sections@.len(),
            sv == section_views(sections@),
            b@ == head + sections_text(sv.take(i as int)),
        decreases sections@.len() - i,
    {
        let ghost before = b@;
        let (title, content) = &sections[i];
        push_str(&mut b, "\n## ");
        push_str(&mut b, title);
        push_str(&mut b, "\n");
        let dashes = repeat_char('-', 40);
        push_str(&mut b, dashes.as_str());
        push_str(&mut b, "\n\n");
        push_str(&mut b, content.as_str());
        push_str(&mut b, "\n");
        proof {
            let taken = sv.take(i + 1);
            assert(taken.drop_last() =~= sv.take(i as int));
            assert(taken.last() == (title@, content@));
            assert(b@ =~= before + section_text(title@, content@));
        }
        i = i + 1;
    }
    proof {
        assert(sv.take(i as int) =~= sv);
    }
    b
}

/// `<target>-<timestamp>.txt`, the report's file name, with every `/` of the
/// target and the timestamp replaced by `_`: the name is a single component
/// that ends in `.txt` (so it is neither `.` nor `..`), and the report it
/// names stays inside the report directory.
pub fn file_name(target: &str, timestamp: &str) -> (r: String)
    ensures
        r@ == confined(target@) + "-"@ + confined(timestamp@) + ".txt"@,
        forall|j: int| 0 <= j < r@.len() ==> #[trigger] r@[j] != '/',
{
    let mut n = String::new();
    push_confined(&mut n, target);
    push_str(&mut n, "-");
    push_confined(&mut n, timestamp);
    push_str(&mut n, ".txt");
    proof {
        reveal_strlit("-");
        reveal_strlit(".txt");
        assert("-"@ =~= seq!['-']);
        assert(".txt"@ =~= seq!['.', 't', 'x', 't']);
    }
    n
}

} // verus!
