use vstd::prelude::*;

use crate::style::{
    all_plain, lemma_plain_append, lemma_restyled_contains, lemma_restyled_lacks, restyled, lemma_shows_split, lemma_shows_title, plain, push_span,
    sgr_open, sgr_reset, shows, span, span3, title_pieces, Hue, Look, Piece, Span, Tone,
};
use crate::text::{
    blank, chars_of, decimal, decimal_string, is_blank, is_dec_digit, is_ws, lines, split_lines,
    string_of,
};
use crate::text::{contains, lemma_contains_wrapped, match_at, trim};
use crate::ui::{
    count_line, count_marked, heading, leading_number, lemma_count_read_back, lemma_no_count_read_back,
    lemma_none_read_back,
};

verus! {

/// The lines of `ls` that are not blank, in order.
pub open spec fn filled(ls: Seq<Seq<char>>) -> Seq<Seq<char>>
    decreases ls.len(),
{
    if ls.len() == 0 {
        seq![]
    } else if is_blank(ls.last()) {
        filled(ls.drop_last())
    } else {
        filled(ls.drop_last()).push(ls.last())
    }
}

/// `filled` keeps exactly the lines that are not blank, in order: each of
/// its lines is a non-blank line of the input, and each non-blank line of the
/// input is among them.
pub proof fn lemma_filled(ls: Seq<Seq<char>>)
    ensures
        forall|j: int| 0 <= j < filled(ls).len() ==> !is_blank(#[trigger] filled(ls)[j]) && ls.contains(
            filled(ls)[j],
        ),
        forall|i: int| 0 <= i < ls.len() && !is_blank(#[trigger] ls[i]) ==> filled(ls).contains(ls[i]),
        filled(ls).len() <= ls.len(),
    decreases ls.len(),
{
    if ls.len() > 0 {
        let d = ls.drop_last();
        lemma_filled(d);
        let f = filled(ls);
        let fd = filled(d);
        assert forall|j: int| 0 <= j < f.len() implies !is_blank(#[trigger] f[j]) && ls.contains(f[j]) by {
            if j < fd.len() {
                assert(f[j] == fd[j]);
                let k = choose|k: int| 0 <= k < d.len() && d[k] == fd[j];
                assert(ls[k] == d[k]);
            } else {
                assert(f[j] == ls.last());
                assert(ls[ls.len() - 1] == ls.last());
            }
        }
        assert forall|i: int| 0 <= i < ls.len() && !is_blank(#[trigger] ls[i]) implies f.contains(ls[i]) by {
            if i < ls.len() - 1 {
                assert(d[i] == ls[i]);
                let k = choose|k: int| 0 <= k < fd.len() && fd[k] == d[i];
                assert(f[k] == fd[k]);
            } else {
                assert(f[f.len() - 1] == ls.last());
            }
        }
    }
}

/// One indented report line per entry.
pub open spec fn indented(ls: Seq<Seq<char>>) -> Seq<Piece>
    decreases ls.len(),
{
    if ls.len() == 0 {
        seq![]
    } else {
        indented(ls.drop_last()) + seq![("  "@ + ls.last() + "\n"@, Look::Plain)]
    }
}

/// A listing of the non-blank lines of a tool's output: `none` when there
/// are none, else `  <count> <found>` and one indented line each.
pub open spec fn listing(output: Seq<char>, found: Seq<char>, none: Seq<char>) -> Seq<Piece> {
    let items = filled(lines(output));
    if items.len() == 0 {
        seq![(none, Look::Plain)]
    } else {
        seq![("  "@ + decimal(items.len()) + found, Look::Plain)] + indented(items)
    }
}

/// Indented lines are drawn plain.
pub proof fn lemma_indented_plain(ls: Seq<Seq<char>>)
    ensures
        all_plain(indented(ls)),
    decreases ls.len(),
{
    if ls.len() > 0 {
        lemma_indented_plain(ls.drop_last());
        let a = indented(ls.drop_last());
        let b = seq![("  "@ + ls.last() + "\n"@, Look::Plain)];
        assert forall|i: int| 0 <= i < (a + b).len() implies (#[trigger] (a + b)[i]).1 == Look::Plain by {
            if i < a.len() {
                assert((a + b)[i] == a[i]);
            } else {
                assert((a + b)[i] == b[0]);
            }
        }
    }
}

/// A title that can head a report: a line of its own, drawn with or
/// without colour, whose first word is not a number.
pub open spec fn plain_title(title: Seq<char>) -> bool {
    &&& title.len() >= 2
    &&& !is_ws(title[0])
    &&& !is_dec_digit(title[0])
    &&& title[0] != '+'
    &&& no_break(title)
}

/// Text without a line break.
pub open spec fn no_break(s: Seq<char>) -> bool {
    forall|j: int| 0 <= j < s.len() ==> #[trigger] s[j] != '\n'
}

/// Text with neither a line break nor an escape character.
pub open spec fn one_line(s: Seq<char>) -> bool
    decreases s.len(),
{
    s.len() == 0 || (s[0] != '\n' && s[0] != '\x1b' && one_line(s.drop_first()))
}

/// `one_line` holds exactly when no character is a line break or an escape.
pub proof fn lemma_one_line(s: Seq<char>)
    ensures
        one_line(s) <==> forall|j: int| 0 <= j < s.len() ==> #[trigger] s[j] != '\n' && s[j] != '\x1b',
    decreases s.len(),
{
    if s.len() > 0 {
        lemma_one_line(s.drop_first());
        if forall|j: int| 0 <= j < s.len() ==> #[trigger] s[j] != '\n' && s[j] != '\x1b' {
            assert forall|j: int| 0 <= j < s.drop_first().len() implies #[trigger] s.drop_first()[j] != '\n'
                && s.drop_first()[j] != '\x1b' by {
                assert(s.drop_first()[j] == s[j + 1]);
            }
        }
        if one_line(s) {
            assert forall|j: int| 0 <= j < s.len() implies #[trigger] s[j] != '\n' && s[j] != '\x1b' by {
                if j > 0 {
                    assert(s[j] == s.drop_first()[j - 1]);
                }
            }
        }
    }
}

/// A literal heading followed by a target without line breaks is a title.
pub proof fn lemma_heading(lit: Seq<char>, target: Seq<char>)
    requires
        lit.len() >= 2,
        !is_ws(lit[0]),
        !is_dec_digit(lit[0]),
        lit[0] != '+',
        one_line(lit),
        no_break(target),
    ensures
        plain_title(lit + target),
{
    lemma_one_line(lit);
    let t = lit + target;
    assert forall|j: int| 0 <= j < t.len() implies #[trigger] t[j] != '\n' by {
        if j < lit.len() {
            assert(t[j] == lit[j]);
        } else {
            assert(t[j] == target[j - lit.len()]);
        }
    }
}

/// The first line of a drawn title: the title, plain or in colour.
pub proof fn lemma_title_line(r: Seq<char>, title: Seq<char>) -> (x: Seq<char>)
    requires
        shows(r, title_pieces(title)),
        plain_title(title),
    ensures
        r == x + seq!['\n'],
        x == title || x == sgr_open(Look::BoldFg(Tone::Dark(Hue::Cyan))) + restyled(
            title,
            sgr_open(Look::BoldFg(Tone::Dark(Hue::Cyan))),
        ) + sgr_reset(),
        x.len() >= 2,
        !is_ws(x[0]),
        !is_dec_digit(x[0]),
        x[0] != '+',
        forall|j: int| 0 <= j < x.len() ==> #[trigger] x[j] != '\n',
{
    lemma_shows_title(r, title);
    if r == title + seq!['\n'] {
        title
    } else {
        let o = sgr_open(Look::BoldFg(Tone::Dark(Hue::Cyan)));
        let m = restyled(title, o);
        let x = o + m + sgr_reset();
        assert(o =~= seq!['\x1b', '[', '1', ';', '3', '6', 'm']);
        assert forall|j: int| 0 <= j < o.len() implies #[trigger] o[j] != '\n' by {}
        lemma_restyled_lacks(title, o, '\n');
        assert forall|j: int| 0 <= j < x.len() implies #[trigger] x[j] != '\n' by {
            if j < 7 {
                assert(x[j] == o[j]);
            } else if j < 7 + m.len() {
                assert(x[j] == m[j - 7]);
            } else {
                assert(x[j] == sgr_reset()[j - 7 - m.len()]);
            }
        }
        assert(x[0] == '\x1b');
        x
    }
}

/// A marker that the escape sequences of a drawing cannot help to form: no
/// line break or escape character in it, and it starts and ends with a
/// letter other than `m`.
pub open spec fn fair_marker(marker: Seq<char>) -> bool {
    &&& marker.len() > 0
    &&& forall|j: int| 0 <= j < marker.len() ==> #[trigger] marker[j] != '\n' && marker[j] != '\x1b'
    &&& letter_not_m(marker[0])
    &&& letter_not_m(marker[marker.len() - 1])
}

/// An ASCII letter other than `m`.
pub open spec fn letter_not_m(c: char) -> bool {
    (('a' <= c && c <= 'z') || ('A' <= c && c <= 'Z')) && c != 'm'
}

/// A title under which the count reads back: one whose first line gives
/// none, or one that does not hold the marker.
pub open spec fn heads(title: Seq<char>, marker: Seq<char>) -> bool {
    plain_title(title) || !contains(title, marker)
}

/// A marker that no occurrence can start inside `lit` is in `lit + t` only
/// where it is in `t`.
pub proof fn lemma_after_prefix(lit: Seq<char>, t: Seq<char>, marker: Seq<char>)
    requires
        forall|i: int| 0 <= i < lit.len() ==> !match_at(lit + t, marker, i),
        !contains(t, marker),
    ensures
        !contains(lit + t, marker),
{
    let s = lit + t;
    if contains(s, marker) {
        let i = choose|i: int| match_at(s, marker, i);
        assert(i >= lit.len());
        let i2 = i - lit.len();
        assert(t.subrange(i2, i2 + marker.len()) =~= s.subrange(i, i + marker.len()));
        assert(match_at(t, marker, i2));
    }
}

/// The first line(s) of a drawn title, which give no count.
pub proof fn lemma_title_heading(r: Seq<char>, title: Seq<char>, marker: Seq<char>) -> (x: Seq<char>)
    requires
        shows(r, title_pieces(title)),
        heads(title, marker),
        fair_marker(marker),
    ensures
        r == x + seq!['\n'],
        heading(x, marker),
{
    if plain_title(title) {
        lemma_title_line(r, title)
    } else {
        lemma_shows_title(r, title);
        if r == title + seq!['\n'] {
            title
        } else {
            let o = sgr_open(Look::BoldFg(Tone::Dark(Hue::Cyan)));
            let m = restyled(title, o);
            let e = sgr_reset();
            assert(o =~= seq!['\x1b', '[', '1', ';', '3', '6', 'm']);
            assert(e =~= seq!['\x1b', '[', '0', 'm']);
            assert forall|j: int| 0 <= j < o.len() implies #[trigger] o[j] != marker[0] by {}
            assert forall|j: int| 0 <= j < 4 implies #[trigger] sgr_reset()[j] != marker[0] by {}
            assert forall|j: int| 0 <= j < e.len() implies #[trigger] e[j] != marker[marker.len() - 1] by {}
            lemma_restyled_contains(title, o, marker);
            lemma_contains_wrapped(o, m, e, marker);
            o + m + e
        }
    }
}

/// What a listing under a title reads back as: the count it prints, which
/// is the number of entries it lists (0 when it lists none), however the
/// title was drawn.
pub proof fn lemma_listing_read_back(r: Seq<char>, title: Seq<char>, output: Seq<char>, marker: Seq<char>)
    requires
        shows(
            r,
            title_pieces(title) + listing(
                output,
                seq![' '] + marker + seq![':', '\n'],
                seq![' ', ' ', '(', 'n', 'o', ' '] + marker + seq![')', '\n'],
            ),
        ),
        heads(title, marker),
        fair_marker(marker),
        forall|j: int| 0 <= j < marker.len() ==> #[trigger] marker[j] != '\n',
        filled(lines(output)).len() <= usize::MAX,
    ensures
        count_marked(lines(r), marker) == filled(lines(output)).len(),
{
    let found = seq![' '] + marker + seq![':', '\n'];
    let none = seq![' ', ' ', '(', 'n', 'o', ' '] + marker + seq![')', '\n'];
    let l = listing(output, found, none);
    let items = filled(lines(output));
    let n = items.len();
    let head = seq![("  "@ + decimal(n) + found, Look::Plain)];
    lemma_indented_plain(items);
    assert(all_plain(l)) by {
        if n > 0 {
            assert forall|i: int| 0 <= i < l.len() implies (#[trigger] l[i]).1 == Look::Plain by {
                if i == 0 {
                    assert(l[i] == head[0]);
                } else {
                    assert(l[i] == indented(items)[i - 1]);
                }
            }
        }
    }
    let k = lemma_shows_split(r, title_pieces(title), l);
    let x = lemma_title_heading(r.take(k), title, marker);
    assert(r =~= r.take(k) + r.skip(k));
    if n == 0 {
        assert(l == seq![(none, Look::Plain)]);
        assert(seq![(none, Look::Plain)].drop_last() =~= Seq::<Piece>::empty());
        assert(plain(l) == none);
        assert(r =~= x + seq!['\n'] + (seq![' ', ' ', '(', 'n', 'o', ' '] + marker + seq![')'])
            + seq!['\n']);
        lemma_none_read_back(x, marker);
    } else {
        reveal_strlit("  ");
        assert(l == head + indented(items));
        lemma_plain_append(head, indented(items));
        assert(head.drop_last() =~= Seq::<Piece>::empty());
        assert(plain(Seq::<Piece>::empty()).len() == 0);
        assert(plain(head) =~= plain(head.drop_last()) + head.last().0);
        assert(plain(head) =~= "  "@ + decimal(n) + found);
        let end = seq![':'];
        assert("  "@ + decimal(n) + found =~= count_line(n, marker, end) + seq!['\n']);
        assert(r =~= x + seq!['\n'] + count_line(n, marker, end) + seq!['\n'] + plain(
            indented(items),
        ));
        assert forall|j: int| 0 <= j < (marker + end).len() implies #[trigger] (marker + end)[j]
            != '\n' by {
            if j < marker.len() {
                assert((marker + end)[j] == marker[j]);
            }
        }
        lemma_count_read_back(x, n, marker, end, plain(indented(items)));
    }
}

/// What a report that opens with a title and then the count line
/// `  <n> <marker><end>` reads back as, however it is drawn: `n`.
pub proof fn lemma_counted_read_back(
    r: Seq<char>,
    title: Seq<char>,
    n: nat,
    marker: Seq<char>,
    end: Seq<char>,
    rest: Seq<Piece>,
)
    requires
        shows(r, title_pieces(title) + (seq![(count_line(n, marker, end) + seq!['\n'], Look::Plain)] + rest)),
        all_plain(rest),
        heads(title, marker),
        fair_marker(marker),
        forall|j: int| 0 <= j < (marker + end).len() ==> #[trigger] (marker + end)[j] != '\n',
        (marker + end).len() > 0,
        !is_ws((marker + end).last()),
        n <= usize::MAX,
    ensures
        count_marked(lines(r), marker) == n,
{
    let head = seq![(count_line(n, marker, end) + seq!['\n'], Look::Plain)];
    let l = head + rest;
    assert forall|i: int| 0 <= i < l.len() implies (#[trigger] l[i]).1 == Look::Plain by {
        if i == 0 {
            assert(l[i] == head[0]);
        } else {
            assert(l[i] == rest[i - 1]);
        }
    }
    let k = lemma_shows_split(r, title_pieces(title), l);
    let x = lemma_title_heading(r.take(k), title, marker);
    assert(r =~= r.take(k) + r.skip(k));
    lemma_plain_append(head, rest);
    assert(head.drop_last() =~= Seq::<Piece>::empty());
    assert(plain(Seq::<Piece>::empty()).len() == 0);
    assert(plain(head) =~= plain(head.drop_last()) + head.last().0);
    assert(r =~= x + seq!['\n'] + count_line(n, marker, end) + seq!['\n'] + plain(rest));
    lemma_count_read_back(x, n, marker, end, plain(rest));
}

/// What a report that opens with a title and then one line that gives no
/// count reads back as, however it is drawn: 0.
pub proof fn lemma_uncounted_read_back(r: Seq<char>, title: Seq<char>, l: Seq<char>, marker: Seq<char>)
    requires
        shows(r, title_pieces(title) + seq![(l + seq!['\n'], Look::Plain)]),
        heads(title, marker),
        fair_marker(marker),
        forall|j: int| 0 <= j < l.len() ==> #[trigger] l[j] != '\n',
        l.len() > 0 ==> l.last() != '\r',
        !(contains(trim(l), marker) && leading_number(trim(l)) is Some),
    ensures
        count_marked(lines(r), marker) == 0,
{
    let p = seq![(l + seq!['\n'], Look::Plain)];
    assert(all_plain(p)) by {
        assert forall|i: int| 0 <= i < p.len() implies (#[trigger] p[i]).1 == Look::Plain by {}
    }
    let k = lemma_shows_split(r, title_pieces(title), p);
    let x = lemma_title_heading(r.take(k), title, marker);
    assert(r =~= r.take(k) + r.skip(k));
    assert(p.drop_last() =~= Seq::<Piece>::empty());
    assert(plain(Seq::<Piece>::empty()).len() == 0);
    assert(plain(p) =~= plain(p.drop_last()) + p.last().0);
    assert(r =~= x + seq!['\n'] + l + seq!['\n']);
    lemma_no_count_read_back(x, l, marker);
}

/// Appends the listing of `output` to `out`.
pub fn push_listing(out: &mut Vec<Span>, output: &str, found: &str, none: &str)
    ensures
        final(out).deep_view() == old(out).deep_view() + listing(output@, found@, none@),
{
    let ls = split_lines(&chars_of(output));
    let ghost all = ls.deep_view();
    let mut items: Vec<Vec<char>> = Vec::new();
    let mut i: usize = 0;
    proof {
        assert(all.take(0) =~= Seq::<Seq<char>>::empty());
        assert(items.deep_view() =~= Seq::<Seq<char>>::empty());
    }
    while i < ls.len()
        invariant
            i <= ls.len(),
            all == ls.deep_view(),
            all == lines(output@),
            items.deep_view() == filled(all.take(i as int)),
        decreases ls.len() - i,
    {
        let ghost prev = items.deep_view();
        proof {
            assert(all.take(i + 1).drop_last() =~= all.take(i as int));
            assert(all.take(i + 1).last() == ls[i as int]@);
            assert(ls[i as int].deep_view() =~= ls[i as int]@);
        }
        if !blank(&ls[i]) {
            let copy = crate::text::slice_range(&ls[i], 0, ls[i].len());
            proof {
                assert(ls[i as int]@.subrange(0, ls[i as int]@.len() as int) =~= ls[i as int]@);
                assert(copy.deep_view() =~= copy@);
            }
            items.push(copy);
            proof {
                assert(items.deep_view() =~= prev.push(ls[i as int]@));
            }
        }
        i = i + 1;
    }
    proof {
        assert(all.take(i as int) =~= all);
    }
    let ghost before = out.deep_view();
    if items.len() == 0 {
        push_span(out, span(none, Look::Plain));
        return;
    }
    let n = decimal_string(items.len() as u64);
    push_span(out, span3("  ", n.as_str(), found, Look::Plain));
    push_indented(out, &items);
}

/// Appends one indented line per entry of `items` to `out`.
pub fn push_indented(out: &mut Vec<Span>, items: &Vec<Vec<char>>)
    ensures
        final(out).deep_view() == old(out).deep_view() + indented(items.deep_view()),
{
    let ghost head = out.deep_view();
    let mut j: usize = 0;
    proof {
        assert(items.deep_view().take(0) =~= Seq::<Seq<char>>::empty());
        assert(head + indented(Seq::<Seq<char>>::empty()) =~= head);
    }
    while j < items.len()
        invariant
            j <= items.len(),
            out.deep_view() == head + indented(items.deep_view().take(j as int)),
        decreases items.len() - j,
    {
        let s = string_of(&items[j]);
        push_span(out, span3("  ", s.as_str(), "\n", Look::Plain));
        proof {
            let taken = items.deep_view().take(j + 1);
            assert(taken.drop_last() =~= items.deep_view().take(j as int));
            assert(taken.last() == items[j as int]@);
        }
        j = j + 1;
    }
    proof {
        assert(items.deep_view().take(j as int) =~= items.deep_view());
    }
}

} // verus!
