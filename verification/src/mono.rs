//! Section frames in plain grey with a white label.
use vstd::prelude::*;

use crate::style::{push_span, span, span_chars, Hue, Look, Piece, Span, Tone};
use crate::ui::{box_body, box_label, push_box_body, rep, repeat_char};

verus! {

/// The look of the frame: bright black.
pub open spec fn frame() -> Look {
    Look::Fg(Tone::Bright(Hue::Black))
}

fn frame_look() -> (r: Look)
    ensures
        r == frame(),
{
    Look::Fg(Tone::Bright(Hue::Black))
}

/// Width of the rule after a header label of `n` characters.
pub open spec fn rule_width(n: nat) -> nat {
    if n >= 50 {
        0
    } else {
        (50 - n) as nat
    }
}

/// A section header: the corner, the label in white, the rule.
pub open spec fn header_view(icon: Seq<char>, title: Seq<char>) -> Seq<Piece> {
    let label = box_label(icon, title);
    seq![
        ("╭─"@, frame()),
        (label, Look::BoldFg(Tone::Dark(Hue::White))),
        (rep('─', rule_width(label.len())), frame()),
    ]
}

/// The closing rule of a section.
pub open spec fn footer_view() -> Seq<Piece> {
    seq![(seq!['╰'] + rep('─', 48), frame())]
}

/// A titled box-drawn section header, e.g. `╭─ 🌐  WHOIS ─────────`.
pub fn section_header(icon: &str, title: &str) -> (r: Vec<Span>)
    ensures
        r.deep_view() == header_view(icon@, title@),
{
    let label = crate::ui::label_chars(icon, title);
    let width: usize = if label.len() >= 50 {
        0
    } else {
        50 - label.len()
    };
    let mut out: Vec<Span> = Vec::new();
    push_span(&mut out, span("╭─", frame_look()));
    push_span(&mut out, span_chars(&label, Look::BoldFg(Tone::Dark(Hue::White))));
    push_span(&mut out, Span { text: repeat_char('─', width), look: frame_look() });
    proof {
        assert(out.deep_view() =~= header_view(icon@, title@));
    }
    out
}

/// Closing rule for a section.
pub fn section_footer() -> (r: Vec<Span>)
    ensures
        r.deep_view() == footer_view(),
{
    let mut t = String::new();
    crate::text::push_char(&mut t, '╰');
    let dashes = repeat_char('─', 48);
    crate::style::push_str(&mut t, dashes.as_str());
    let mut out: Vec<Span> = Vec::new();
    push_span(&mut out, Span { text: t, look: frame_look() });
    proof {
        assert(out.deep_view() =~= footer_view());
    }
    out
}

/// A section: header, each line of the content behind an edge, footer.
pub open spec fn mono_boxed_view(icon: Seq<char>, title: Seq<char>, content: Seq<char>) -> Seq<
    Piece,
> {
    header_view(icon, title) + seq![("\n"@, Look::Plain)] + box_body(
        crate::text::lines(content),
        frame(),
    ) + footer_view() + seq![("\n"@, Look::Plain)]
}

fn append_spans(out: &mut Vec<Span>, more: Vec<Span>)
    ensures
        final(out).deep_view() == old(out).deep_view() + more.deep_view(),
{
    let ghost before = out.deep_view();
    let mut i: usize = 0;
    proof {
        assert(before + more.deep_view().take(0) =~= before);
    }
    while i < more.len()
        invariant
            i <= more.len(),
            out.deep_view() == before + more.deep_view().take(i as int),
        decreases more.len() - i,
    {
        push_span(out, more[i].clone_span());
        proof {
            assert(more.deep_view().take(i + 1) =~= more.deep_view().take(i as int).push(
                more[i as int].deep_view(),
            ));
        }
        i = i + 1;
    }
    proof {
        assert(more.deep_view().take(i as int) =~= more.deep_view());
    }
}

/// Wraps a block of content between a header/footer pair.
pub fn boxed(icon: &str, title: &str, content: &str) -> (r: Vec<Span>)
    ensures
        r.deep_view() == mono_boxed_view(icon@, title@, content@),
{
    let mut out = section_header(icon, title);
    push_span(&mut out, span("\n", Look::Plain));
    push_box_body(&mut out, content, frame_look());
    append_spans(&mut out, section_footer());
    push_span(&mut out, span("\n", Look::Plain));
    out
}

} // verus!
