use vstd::prelude::*;

use crate::style::{push_span, span, span_chars, Hue, Look, Piece, Span, Tone};
use crate::text::{
    chars_of, contains, contains_chars, decimal, decimal_string, is_dec_digit, is_ws, is_whitespace,
    lemma_contains_wrapped, lemma_decimal, lemma_lines_append, lemma_lines_cons, lemma_lines_contains,
    lemma_parse_decimal, lemma_trim_contains, lemma_trim_end_is, lemma_trim_start_is,
    lines, match_at, parse_usize, parse_usize_range, push_char, split_lines, strip_cr, trim,
    trim_end, trim_range, trim_start,
};

verus! {

/// `n` copies of `c`.
pub open spec fn rep(c: char, n: nat) -> Seq<char> {
    Seq::new(n, |i: int| c)
}

/// `c.to_string().repeat(n)`.
pub fn repeat_char(c: char, n: usize) -> (r: String)
    ensures
        r@ == rep(c, n as nat),
{
    let mut r = String::new();
    let mut i: usize = 0;
    while i < n
        invariant
            i <= n,
            r@ == rep(c, i as nat),
        decreases n - i,
    {
        push_char(&mut r, c);
        i = i + 1;
        proof {
            assert(r@ =~= rep(c, i as nat));
        }
    }
    r
}

/// The body of a box: each line of the content behind an edge mark.
pub open spec fn box_body(ls: Seq<Seq<char>>, edge: Look) -> Seq<Piece>
    decreases ls.len(),
{
    if ls.len() == 0 {
        seq![]
    } else {
        box_body(ls.drop_last(), edge) + seq![
            (seq!['│'], edge),
            (seq![' '] + ls.last() + seq!['\n'], Look::Plain),
        ]
    }
}

/// Appends the body of a box around `content` to `out`.
pub fn push_box_body(out: &mut Vec<Span>, content: &str, edge: Look)
    ensures
        final(out).deep_view() == old(out).deep_view() + box_body(lines(content@), edge),
{
    let ls = split_lines(&chars_of(content));
    let ghost before = out.deep_view();
    let mut i: usize = 0;
    proof {
        assert(ls.deep_view().take(0) =~= Seq::<Seq<char>>::empty());
        assert(before + box_body(Seq::<Seq<char>>::empty(), edge) =~= before);
    }
    while i < ls.len()
        invariant
            i <= ls.len(),
            ls.deep_view() == lines(content@),
            out.deep_view() == before + box_body(ls.deep_view().take(i as int), edge),
        decreases ls.len() - i,
    {
        let ghost prev = out.deep_view();
        push_span(out, span("│", edge));
        let mut t: Vec<char> = Vec::new();
        t.push(' ');
        let line = &ls[i];
        let mut k: usize = 0;
        while k < line.len()
            invariant
                k <= line.len(),
                t@ == seq![' '] + line@.take(k as int),
            decreases line.len() - k,
        {
            t.push(line[k]);
            k = k + 1;
            proof {
                assert(t@ =~= seq![' '] + line@.take(k as int));
            }
        }
        t.push('\n');
        push_span(out, span_chars(&t, Look::Plain));
        proof {
            reveal_strlit("│");
            assert("│"@ =~= seq!['│']);
            assert(line@.take(line@.len() as int) =~= line@);
            assert(ls.deep_view()[i as int] == line@);
            let taken = ls.deep_view().take(i + 1);
            assert(taken.drop_last() =~= ls.deep_view().take(i as int));
            assert(taken.last() == line@);
            assert(t@ =~= seq![' '] + line@ + seq!['\n']);
            assert(box_body(taken, edge) == box_body(taken.drop_last(), edge) + seq![
                (seq!['│'], edge),
                (seq![' '] + taken.last() + seq!['\n'], Look::Plain),
            ]);
            assert(out.deep_view() =~= prev + seq![
                (seq!['│'], edge),
                (seq![' '] + line@ + seq!['\n'], Look::Plain),
            ]);
        }
        i = i + 1;
        proof {
            assert(out.deep_view() =~= before + box_body(ls.deep_view().take(i as int), edge));
        }
    }
    proof {
        assert(ls.deep_view().take(i as int) =~= ls.deep_view());
    }
}

/// ` {icon}  {title} `, the label of a box header.
pub open spec fn box_label(icon: Seq<char>, title: Seq<char>) -> Seq<char> {
    seq![' '] + icon + seq![' ', ' '] + title + seq![' ']
}

/// Width of the header rule after the label; the timing suffix counts as
/// seven columns.
pub open spec fn header_rule(label_len: nat, timed: bool) -> nat {
    let visible = label_len + if timed {
        7nat
    } else {
        0nat
    };
    if visible >= 52 {
        0
    } else {
        (52 - visible) as nat
    }
}

/// A box around `content` in tone `tone`, with an elapsed-time suffix on the
/// header when `elapsed` holds the seconds (already written with one
/// decimal).
pub open spec fn boxed_view(
    icon: Seq<char>,
    title: Seq<char>,
    tone: Tone,
    content: Seq<char>,
    elapsed: Option<Seq<char>>,
) -> Seq<Piece> {
    let label = box_label(icon, title);
    seq![
        (seq!['╭', '─'], Look::Fg(tone)),
        (label, Look::BoldFg(tone)),
        (rep('─', header_rule(label.len(), elapsed is Some)), Look::Fg(tone)),
    ] + match elapsed {
        Some(e) => seq![
            (seq![' '], Look::Plain),
            (e + seq!['s'], Look::Dimmed),
            (seq![' '], Look::Plain),
        ],
        None => seq![],
    } + seq![(seq!['\n'], Look::Plain)] + box_body(lines(content), Look::Fg(tone)) + seq![
        (seq!['╰'] + rep('─', 50), Look::Fg(tone)),
        (seq!['\n'], Look::Plain),
    ]
}

/// The label of a box header, as characters.
pub fn label_chars(icon: &str, title: &str) -> (r: Vec<char>)
    ensures
        r@ == box_label(icon@, title@),
{
    let mut v: Vec<char> = Vec::new();
    v.push(' ');
    let ic = chars_of(icon);
    let ti = chars_of(title);
    let mut i: usize = 0;
    while i < ic.len()
        invariant
            i <= ic.len(),
            v@ == seq![' '] + ic@.take(i as int),
        decreases ic.len() - i,
    {
        v.push(ic[i]);
        i = i + 1;
        proof {
            assert(v@ =~= seq![' '] + ic@.take(i as int));
        }
    }
    v.push(' ');
    v.push(' ');
    let ghost mid = v@;
    let mut j: usize = 0;
    while j < ti.len()
        invariant
            j <= ti.len(),
            v@ == mid + ti@.take(j as int),
        decreases ti.len() - j,
    {
        v.push(ti[j]);
        j = j + 1;
        proof {
            assert(v@ =~= mid + ti@.take(j as int));
        }
    }
    v.push(' ');
    proof {
        assert(ic@.take(i as int) =~= icon@);
        assert(ti@.take(j as int) =~= title@);
        assert(v@ =~= box_label(icon@, title@));
    }
    v
}

/// Same as `boxed`, but with an optional elapsed-time suffix on the header
/// line: `elapsed` is the seconds, already written with one decimal.
pub fn boxed_timed(
    icon: &str,
    title: &str,
    tone: Tone,
    content: &str,
    elapsed: Option<&str>,
) -> (r: Vec<Span>)
    ensures
        r.deep_view() == boxed_view(
            icon@,
            title@,
            tone,
            content@,
            match elapsed {
                Some(e) => Some(e@),
                None => None,
            },
        ),
{
    let label = label_chars(icon, title);
    let visible: usize = if label.len() >= 52 {
        52
    } else {
        label.len() + match elapsed {
            Some(_) => 7,
            None => 0,
        }
    };
    let bar_len: usize = if visible >= 52 {
        0
    } else {
        52 - visible
    };
    let mut out: Vec<Span> = Vec::new();
    push_span(&mut out, span("╭─", Look::Fg(tone)));
    push_span(&mut out, span_chars(&label, Look::BoldFg(tone)));
    push_span(&mut out, Span { text: repeat_char('─', bar_len), look: Look::Fg(tone) });
    let ghost head = out.deep_view();
    match elapsed {
        Some(e) => {
            push_span(&mut out, span(" ", Look::Plain));
            let mut secs = crate::text::owned(e);
            push_char(&mut secs, 's');
            proof {
                assert(secs@ =~= e@ + seq!['s']);
            }
            push_span(&mut out, Span { text: secs, look: Look::Dimmed });
            push_span(&mut out, span(" ", Look::Plain));
            proof {
                reveal_strlit(" ");
                assert(" "@ =~= seq![' ']);
                assert(out.deep_view() =~= head + seq![
                    (seq![' '], Look::Plain),
                    (e@ + seq!['s'], Look::Dimmed),
                    (seq![' '], Look::Plain),
                ]);
            }
        },
        None => {
            proof {
                assert(out.deep_view() =~= head + Seq::<Piece>::empty());
            }
        },
    }
    push_span(&mut out, span("\n", Look::Plain));
    let ghost top = out.deep_view();
    push_box_body(&mut out, content, Look::Fg(tone));
    let ghost mid = out.deep_view();
    let mut foot = String::new();
    push_char(&mut foot, '╰');
    let dashes = repeat_char('─', 50);
    crate::style::push_str(&mut foot, dashes.as_str());
    push_span(&mut out, Span { text: foot, look: Look::Fg(tone) });
    push_span(&mut out, span("\n", Look::Plain));
    proof {
        reveal_strlit("╭─");
        reveal_strlit(" ");
        reveal_strlit("\n");
        assert(header_rule(label@.len(), elapsed is Some) == bar_len);
        let el = match elapsed {
            Some(e) => Some(e@),
            None => None::<Seq<char>>,
        };
        let label_v = box_label(icon@, title@);
        assert("╭─"@ =~= seq!['╭', '─']);
        assert(" "@ =~= seq![' ']);
        assert("\n"@ =~= seq!['\n']);
        assert(head =~= seq![
            (seq!['╭', '─'], Look::Fg(tone)),
            (label_v, Look::BoldFg(tone)),
            (rep('─', header_rule(label_v.len(), elapsed is Some)), Look::Fg(tone)),
        ]);
        let tail_part = match el {
            Some(e) => seq![
                (seq![' '], Look::Plain),
                (e + seq!['s'], Look::Dimmed),
                (seq![' '], Look::Plain),
            ],
            None => seq![],
        };
        assert(top =~= head + tail_part + seq![(seq!['\n'], Look::Plain)]);
        assert(mid == top + box_body(lines(content@), Look::Fg(tone)));
        assert(out.deep_view() =~= mid + seq![
            (seq!['╰'] + rep('─', 50), Look::Fg(tone)),
            (seq!['\n'], Look::Plain),
        ]);
        assert(out.deep_view() =~= boxed_view(icon@, title@, tone, content@, el));
    }
    out
}

/// A titled, colour-accented box-drawn section around `content`.
pub fn boxed(icon: &str, title: &str, tone: Tone, content: &str) -> (r: Vec<Span>)
    ensures
        r.deep_view() == boxed_view(icon@, title@, tone, content@, None),
{
    boxed_timed(icon, title, tone, content, None)
}


// ---------------------------------------------------------------------------
// Counting what a report says
// ---------------------------------------------------------------------------

/// Position of the first white-space character of `s`, or `s.len()`.
pub open spec fn ws_pos(s: Seq<char>) -> int
    decreases s.len(),
{
    if s.len() == 0 {
        0
    } else if is_ws(s[0]) {
        0
    } else {
        1 + ws_pos(s.drop_first())
    }
}

/// A position with no white space before it and some at it (or the end) is
/// `ws_pos`.
pub proof fn lemma_ws_pos_is(s: Seq<char>, m: int)
    requires
        0 <= m <= s.len(),
        forall|j: int| 0 <= j < m ==> !is_ws(#[trigger] s[j]),
        m < s.len() ==> is_ws(s[m]),
    ensures
        ws_pos(s) == m,
    decreases s.len(),
{
    if s.len() > 0 && !is_ws(s[0]) {
        assert forall|j: int| 0 <= j < m - 1 implies !is_ws(#[trigger] s.drop_first()[j]) by {
            assert(s.drop_first()[j] == s[j + 1]);
        }
        lemma_ws_pos_is(s.drop_first(), m - 1);
    }
}

/// `s.split_whitespace().next()`: the first word of `s`.
pub open spec fn first_word(s: Seq<char>) -> Option<Seq<char>> {
    let u = trim_start(s);
    if u.len() == 0 {
        None
    } else {
        Some(u.take(ws_pos(u)))
    }
}

/// The number that leads a trimmed line, if it has one.
pub open spec fn leading_number(t: Seq<char>) -> Option<usize> {
    match first_word(t) {
        Some(w) => parse_usize(w),
        None => None,
    }
}

/// The number at the head of the first line that holds `marker` and starts
/// with a number; 0 when there is none.
pub open spec fn count_marked(ls: Seq<Seq<char>>, marker: Seq<char>) -> usize
    decreases ls.len(),
{
    if ls.len() == 0 {
        0
    } else {
        let t = trim(ls[0]);
        if contains(t, marker) && leading_number(t) is Some {
            leading_number(t)->0
        } else {
            count_marked(ls.drop_first(), marker)
        }
    }
}

/// Scans a block of text for a line matching "<number> <marker>" (the
/// pattern every count-producing module prints, e.g. "12 unique names
/// found") and returns that number, or 0.
pub fn extract_count(text: &str, marker: &str) -> (r: usize)
    ensures
        r == count_marked(lines(text@), marker@),
{
    let ls = split_lines(&chars_of(text));
    let m = chars_of(marker);
    let mut i: usize = 0;
    proof {
        assert(ls.deep_view().skip(0) =~= ls.deep_view());
    }
    while i < ls.len()
        invariant
            i <= ls.len(),
            count_marked(lines(text@), marker@) == count_marked(ls.deep_view().skip(i as int), m@),
            m@ == marker@,
            ls.deep_view() == lines(text@),
        decreases ls.len() - i,
    {
        let line = &ls[i];
        let ghost rest = ls.deep_view().skip(i as int);
        proof {
            assert(rest[0] == line@);
            assert(rest.drop_first() =~= ls.deep_view().skip(i + 1));
        }
        let (a, b) = trim_range(line, 0, line.len());
        proof {
            assert(line@.subrange(0, line@.len() as int) =~= line@);
        }
        let t = crate::text::slice_range(line, a, b);
        if contains_chars(&t, &m) {
            let mut k = a;
            while k < b && !is_whitespace(line[k])
                invariant
                    a <= k <= b <= line@.len(),
                    forall|j: int| a <= j < k ==> !is_ws(#[trigger] line@[j]),
                decreases b - k,
            {
                k = k + 1;
            }
            proof {
                if a < b {
                    crate::text::lemma_trim_start_is(t@, 0);
                    assert(t@.skip(0) =~= t@);
                    assert forall|j: int| 0 <= j < k - a implies !is_ws(#[trigger] t@[j]) by {
                        assert(t@[j] == line@[a + j]);
                    }
                    lemma_ws_pos_is(t@, k - a);
                    assert(t@.take(k - a) =~= line@.subrange(a as int, k as int));
                } else {
                    assert(trim_start(t@).len() == 0);
                }
            }
            if a < b {
                match parse_usize_range(line, a, k) {
                    Some(n) => {
                        return n;
                    },
                    None => {},
                }
            }
        }
        i = i + 1;
    }
    proof {
        assert(ls.deep_view().skip(i as int).len() == 0);
    }
    0
}

/// `ws_pos` lies within the text.
pub proof fn lemma_ws_pos_bounds(s: Seq<char>)
    ensures
        0 <= ws_pos(s) <= s.len(),
    decreases s.len(),
{
    if s.len() > 0 && !is_ws(s[0]) {
        lemma_ws_pos_bounds(s.drop_first());
    }
}

/// A line that starts with neither white space, a digit nor `+` has no
/// leading number.
pub proof fn lemma_no_leading_number(t: Seq<char>)
    requires
        t.len() > 0,
        !is_ws(t[0]),
        !is_dec_digit(t[0]),
        t[0] != '+',
    ensures
        leading_number(t) is None,
{
    lemma_trim_start_is(t, 0);
    assert(t.skip(0) =~= t);
    lemma_ws_pos_bounds(t);
    let w = t.take(ws_pos(t));
    if w.len() > 0 {
        assert(w[0] == t[0]);
    }
}

proof fn lemma_trim_end_head(s: Seq<char>)
    requires
        s.len() > 0,
        !is_ws(s[0]),
    ensures
        trim_end(s).len() > 0,
        trim_end(s)[0] == s[0],
    decreases s.len(),
{
    if is_ws(s.last()) {
        lemma_trim_end_head(s.drop_last());
    }
}

/// Trimming keeps a first character that is not white space.
pub proof fn lemma_trim_head(s: Seq<char>)
    requires
        s.len() > 0,
        !is_ws(s[0]),
    ensures
        trim(s).len() > 0,
        trim(s)[0] == s[0],
{
    lemma_trim_start_is(s, 0);
    assert(s.skip(0) =~= s);
    lemma_trim_end_head(s);
}

/// Indenting a line does not change it trimmed.
pub proof fn lemma_trim_indent(u: Seq<char>)
    requires
        u.len() > 0,
        !is_ws(u[0]),
    ensures
        trim(seq![' ', ' '] + u) == trim(u),
{
    let s = seq![' ', ' '] + u;
    lemma_trim_start_is(s, 2);
    assert(s.skip(2) =~= u);
    lemma_trim_start_is(u, 0);
    assert(u.skip(0) =~= u);
}

/// The line `  <n> <marker><end>` that a count-producing report prints.
pub open spec fn count_line(n: nat, marker: Seq<char>, end: Seq<char>) -> Seq<char> {
    seq![' ', ' '] + decimal(n) + seq![' '] + marker + end
}

proof fn lemma_count_line(n: nat, marker: Seq<char>, end: Seq<char>)
    requires
        n <= usize::MAX,
        (marker + end).len() > 0,
        !is_ws((marker + end).last()),
    ensures
        trim(count_line(n, marker, end)) == decimal(n) + seq![' '] + marker + end,
        contains(trim(count_line(n, marker, end)), marker),
        leading_number(trim(count_line(n, marker, end))) == Some(n as usize),
{
    let d = decimal(n);
    let u = d + seq![' '] + marker + end;
    lemma_decimal(n);
    assert(u[0] == d[0]);
    assert(is_dec_digit(d[0]));
    assert(count_line(n, marker, end) =~= seq![' ', ' '] + u);
    assert(u.last() == (marker + end).last());
    lemma_trim_indent(u);
    lemma_trim_start_is(u, 0);
    assert(u.skip(0) =~= u);
    lemma_trim_end_is(u, u.len() as int);
    assert(u.take(u.len() as int) =~= u);
    let k = d.len() as int + 1;
    assert(match_at(u, marker, k)) by {
        assert(u.subrange(k, k + marker.len()) =~= marker);
    }
    assert forall|j: int| 0 <= j < d.len() implies !is_ws(#[trigger] u[j]) by {
        assert(u[j] == d[j]);
        assert(is_dec_digit(d[j]));
    }
    lemma_ws_pos_is(u, d.len() as int);
    assert(u.take(d.len() as int) =~= d);
    lemma_parse_decimal(n);
}

/// A line that gives a count: trimmed, it holds the marker and starts with a
/// number.
pub open spec fn gives_count(l: Seq<char>, marker: Seq<char>) -> bool {
    contains(trim(l), marker) && leading_number(trim(l)) is Some
}

/// A heading that gives no count: one line whose first word is not a
/// number, or any text that does not hold the marker.
pub open spec fn heading(title: Seq<char>, marker: Seq<char>) -> bool {
    ||| (title.len() >= 2 && !is_ws(title[0]) && !is_dec_digit(title[0]) && title[0] != '+' && forall|
        j: int,
    | 0 <= j < title.len() ==> #[trigger] title[j] != '\n')
    ||| !contains(title, marker)
}

proof fn lemma_count_marked_skip(a: Seq<Seq<char>>, b: Seq<Seq<char>>, marker: Seq<char>)
    requires
        forall|i: int| 0 <= i < a.len() ==> !gives_count(#[trigger] a[i], marker),
    ensures
        count_marked(a + b, marker) == count_marked(b, marker),
    decreases a.len(),
{
    if a.len() == 0 {
        assert(a + b =~= b);
    } else {
        assert((a + b)[0] == a[0]);
        assert(!gives_count(a[0], marker));
        assert((a + b).drop_first() =~= a.drop_first() + b);
        assert forall|i: int| 0 <= i < a.drop_first().len() implies !gives_count(
            #[trigger] a.drop_first()[i],
            marker,
        ) by {
            assert(a.drop_first()[i] == a[i + 1]);
        }
        lemma_count_marked_skip(a.drop_first(), b, marker);
    }
}

/// The lines of a heading give no count: reading a report that opens with
/// it reads what follows.
pub proof fn lemma_heading_skipped(title: Seq<char>, tail: Seq<char>, marker: Seq<char>)
    requires
        heading(title, marker),
        marker.len() > 0,
        forall|j: int| 0 <= j < marker.len() ==> #[trigger] marker[j] != '\n',
    ensures
        count_marked(lines(title + seq!['\n'] + tail), marker) == count_marked(lines(tail), marker),
{
    let head = title + seq!['\n'];
    if title.len() >= 2 && !is_ws(title[0]) && !is_dec_digit(title[0]) && title[0] != '+' && forall|
        j: int,
    | 0 <= j < title.len() ==> #[trigger] title[j] != '\n' {
        lemma_lines_cons(title, tail);
        let ls = lines(head + tail);
        let first = strip_cr(title);
        assert(first[0] == title[0]);
        lemma_trim_head(first);
        lemma_no_leading_number(trim(first));
        assert(ls == seq![first] + lines(tail));
        assert(ls[0] == first);
        assert(ls.drop_first() =~= lines(tail));
    } else {
        assert(!contains(head, marker)) by {
            assert forall|i: int| 0 <= i < seq!['\n'].len() implies #[trigger] seq!['\n'][i]
                != marker[marker.len() - 1] by {}
            assert forall|i: int| 0 <= i < Seq::<char>::empty().len() implies #[trigger] Seq::<
                char,
            >::empty()[i] != marker[0] by {}
            assert(Seq::<char>::empty() + title + seq!['\n'] =~= head);
            lemma_contains_wrapped(Seq::<char>::empty(), title, seq!['\n'], marker);
        }
        lemma_lines_contains(head, marker);
        assert forall|i: int| 0 <= i < lines(head).len() implies !gives_count(
            #[trigger] lines(head)[i],
            marker,
        ) by {
            lemma_trim_contains(lines(head)[i], marker);
        }
        lemma_lines_append(head, tail);
        lemma_count_marked_skip(lines(head), lines(tail), marker);
    }
}

/// Reading back a report that opens with a heading and then the count line
/// `  <n> <marker><end>` gives `n`, whatever follows.
pub proof fn lemma_count_read_back(
    title: Seq<char>,
    n: nat,
    marker: Seq<char>,
    end: Seq<char>,
    rest: Seq<char>,
)
    requires
        heading(title, marker),
        marker.len() > 0,
        forall|j: int| 0 <= j < (marker + end).len() ==> #[trigger] (marker + end)[j] != '\n',
        !is_ws((marker + end).last()),
        n <= usize::MAX,
    ensures
        count_marked(
            lines(title + seq!['\n'] + count_line(n, marker, end) + seq!['\n'] + rest),
            marker,
        ) == n,
{
    let cl = count_line(n, marker, end);
    let me = marker + end;
    let d = decimal(n);
    lemma_decimal(n);
    assert forall|j: int| 0 <= j < marker.len() implies #[trigger] marker[j] != '\n' by {
        assert(me[j] == marker[j]);
    }
    assert forall|j: int| 0 <= j < cl.len() implies #[trigger] cl[j] != '\n' by {
        if 2 <= j < 2 + d.len() {
            assert(cl[j] == d[j - 2]);
            assert(is_dec_digit(d[j - 2]));
        } else if 3 + d.len() <= j {
            assert(cl[j] == me[j - 3 - d.len()]);
        }
    }
    assert(cl =~= seq![' ', ' '] + decimal(n) + seq![' '] + me);
    let tail = cl + seq!['\n'] + rest;
    assert(title + seq!['\n'] + cl + seq!['\n'] + rest =~= title + seq!['\n'] + tail);
    lemma_heading_skipped(title, tail, marker);
    lemma_lines_cons(cl, rest);
    assert(cl.last() == me.last());
    assert(strip_cr(cl) == cl);
    lemma_count_line(n, marker, end);
    let after = seq![cl] + lines(rest);
    assert(lines(tail) == after);
    assert(after[0] == cl);
    assert(count_marked(after, marker) == n);
}

/// A report that opens with a heading and then one line that gives no count
/// reads back as 0.
pub proof fn lemma_no_count_read_back(title: Seq<char>, l: Seq<char>, marker: Seq<char>)
    requires
        heading(title, marker),
        marker.len() > 0,
        forall|j: int| 0 <= j < marker.len() ==> #[trigger] marker[j] != '\n',
        forall|j: int| 0 <= j < l.len() ==> #[trigger] l[j] != '\n',
        l.len() > 0 ==> l.last() != '\r',
        !gives_count(l, marker),
    ensures
        count_marked(lines(title + seq!['\n'] + l + seq!['\n']), marker) == 0,
{
    let e = Seq::<char>::empty();
    let tail = l + seq!['\n'] + e;
    assert(title + seq!['\n'] + l + seq!['\n'] =~= title + seq!['\n'] + tail);
    lemma_heading_skipped(title, tail, marker);
    lemma_lines_cons(l, e);
    assert(strip_cr(l) == l);
    assert(lines(tail) =~= seq![l]);
    assert(seq![l][0] == l);
    assert(seq![l].drop_first() =~= Seq::<Seq<char>>::empty());
    assert(count_marked(seq![l], marker) == count_marked(Seq::<Seq<char>>::empty(), marker));
}

/// A report that opens with a heading and then a line `  (no <marker>)`
/// reads back as 0.
pub proof fn lemma_none_read_back(title: Seq<char>, marker: Seq<char>)
    requires
        heading(title, marker),
        marker.len() > 0,
        forall|j: int| 0 <= j < marker.len() ==> #[trigger] marker[j] != '\n',
    ensures
        count_marked(
            lines(title + seq!['\n'] + (seq![' ', ' ', '(', 'n', 'o', ' '] + marker + seq![')'])
                + seq!['\n']),
            marker,
        ) == 0,
{
    let u = seq!['(', 'n', 'o', ' '] + marker + seq![')'];
    let l = seq![' ', ' '] + u;
    assert(l =~= seq![' ', ' ', '(', 'n', 'o', ' '] + marker + seq![')']);
    assert forall|j: int| 0 <= j < l.len() implies #[trigger] l[j] != '\n' by {
        if 6 <= j < 6 + marker.len() {
            assert(l[j] == marker[j - 6]);
        }
    }
    lemma_trim_indent(u);
    lemma_trim_head(u);
    lemma_no_leading_number(trim(l));
    lemma_no_count_read_back(title, l, marker);
}

/// Whether a report line shows an open port: it holds `open` and a `/`.
pub open spec fn shows_open_port(l: Seq<char>) -> bool {
    contains(l, "open"@) && contains(l, "/"@)
}

/// The number of lines that show an open port.
pub open spec fn count_open(ls: Seq<Seq<char>>) -> nat
    decreases ls.len(),
{
    if ls.len() == 0 {
        0
    } else {
        count_open(ls.drop_last()) + if shows_open_port(ls.last()) {
            1nat
        } else {
            0nat
        }
    }
}

/// Counting open-port lines adds up over runs of lines.
pub proof fn lemma_count_open_append(a: Seq<Seq<char>>, b: Seq<Seq<char>>)
    ensures
        count_open(a + b) == count_open(a) + count_open(b),
    decreases b.len(),
{
    if b.len() == 0 {
        assert(a + b =~= a);
    } else {
        lemma_count_open_append(a, b.drop_last());
        assert((a + b).drop_last() =~= a + b.drop_last());
        assert((a + b).last() == b.last());
    }
}

/// Counts lines containing "open" (and a "/") in an nmap-style ports report.
pub fn count_open_ports(text: &str) -> (r: usize)
    ensures
        r == count_open(lines(text@)),
{
    let ls = split_lines(&chars_of(text));
    let open = chars_of("open");
    let slash = chars_of("/");
    let mut n: usize = 0;
    let mut i: usize = 0;
    proof {
        assert(ls.deep_view().take(0) =~= Seq::<Seq<char>>::empty());
    }
    while i < ls.len()
        invariant
            i <= ls.len(),
            n <= i,
            n == count_open(ls.deep_view().take(i as int)),
            ls.deep_view() == lines(text@),
            open@ == "open"@,
            slash@ == "/"@,
        decreases ls.len() - i,
    {
        let line = &ls[i];
        proof {
            let taken = ls.deep_view().take(i + 1);
            assert(taken.drop_last() =~= ls.deep_view().take(i as int));
            assert(taken.last() == line@);
        }
        if contains_chars(line, &open) && contains_chars(line, &slash) {
            n = n + 1;
        }
        i = i + 1;
    }
    proof {
        assert(ls.deep_view().take(i as int) =~= ls.deep_view());
    }
    n
}

// ---------------------------------------------------------------------------
// Banners and the summary dashboard
// ---------------------------------------------------------------------------

/// The look of rules and separators on the dashboard.
pub open spec fn grey() -> Look {
    Look::Fg(Tone::Bright(Hue::Black))
}

fn grey_look() -> (r: Look)
    ensures
        r == grey(),
{
    Look::Fg(Tone::Bright(Hue::Black))
}

/// The pieces of the summary: `<count> <label>` for each item, separated by
/// a grey dot.
pub open spec fn summary_parts(items: Seq<(Seq<char>, usize)>) -> Seq<Piece>
    decreases items.len(),
{
    if items.len() == 0 {
        seq![]
    } else {
        let sep = if items.len() > 1 {
            seq![(" "@, Look::Plain), ("·"@, grey()), (" "@, Look::Plain)]
        } else {
            seq![]
        };
        summary_parts(items.drop_last()) + sep + seq![
            (decimal(items.last().1 as nat), Look::BoldFg(Tone::Bright(Hue::Green))),
            (" "@, Look::Plain),
            (items.last().0, Look::Dimmed),
        ]
    }
}

/// The dashboard: a rule, the summary line, a rule.
pub open spec fn summary_view(items: Seq<(Seq<char>, usize)>) -> Seq<Piece> {
    seq![
        (rep('─', 52), grey()),
        ("\n"@, Look::Plain),
        ("📊 SUMMARY"@, Look::BoldFg(Tone::Bright(Hue::White))),
        (" "@, Look::Plain),
    ] + summary_parts(items) + seq![
        ("\n"@, Look::Plain),
        (rep('─', 52), grey()),
        ("\n"@, Look::Plain),
    ]
}

/// Dashboard items by their characters.
pub open spec fn item_views(items: Seq<(&str, usize)>) -> Seq<(Seq<char>, usize)> {
    items.map_values(|p: (&str, usize)| (p.0@, p.1))
}

/// End-of-run dashboard summarizing counts across sections, e.g.
/// `📊 SUMMARY 12 subdomains · 3 open ports · 47 archived URLs`.
pub fn summary(items: &[(&str, usize)]) -> (r: Vec<Span>)
    ensures
        r.deep_view() == summary_view(item_views(items@)),
{
    let mut out: Vec<Span> = Vec::new();
    push_span(&mut out, Span { text: repeat_char('─', 52), look: grey_look() });
    push_span(&mut out, span("\n", Look::Plain));
    push_span(&mut out, span("📊 SUMMARY", Look::BoldFg(Tone::Bright(Hue::White))));
    push_span(&mut out, span(" ", Look::Plain));
    let ghost head = out.deep_view();
    let ghost iv = item_views(items@);
    let mut i: usize = 0;
    proof {
        assert(iv.take(0) =~= Seq::<(Seq<char>, usize)>::empty());
        assert(head + summary_parts(iv.take(0)) =~= head);
    }
    while i < items.len()
        invariant
            i <= items@.len(),
            iv == item_views(items@),
            out.deep_view() == head + summary_parts(iv.take(i as int)),
        decreases items@.len() - i,
    {
        let ghost before = out.deep_view();
        let (label, count) = items[i];
        if i > 0 {
            push_span(&mut out, span(" ", Look::Plain));
            push_span(&mut out, span("·", grey_look()));
            push_span(&mut out, span(" ", Look::Plain));
        }
        let ghost mid = out.deep_view();
        push_span(
            &mut out,
            Span { text: decimal_string(count as u64), look: Look::BoldFg(Tone::Bright(Hue::Green)) },
        );
        push_span(&mut out, span(" ", Look::Plain));
        push_span(&mut out, span(label, Look::Dimmed));
        proof {
            let taken = iv.take(i + 1);
            assert(taken.drop_last() =~= iv.take(i as int));
            assert(taken.last() == (label@, count));
            let sep = if taken.len() > 1 {
                seq![(" "@, Look::Plain), ("·"@, grey()), (" "@, Look::Plain)]
            } else {
                seq![]
            };
            assert(mid =~= before + sep);
            assert(out.deep_view() =~= head + summary_parts(taken));
        }
        i = i + 1;
    }
    proof {
        assert(iv.take(i as int) =~= iv);
    }
    let ghost body = out.deep_view();
    push_span(&mut out, span("\n", Look::Plain));
    push_span(&mut out, Span { text: repeat_char('─', 52), look: grey_look() });
    push_span(&mut out, span("\n", Look::Plain));
    proof {
        assert(out.deep_view() =~= summary_view(iv));
    }
    out
}

/// ` 🎯 TARGET: {target} `, the label of the target banner.
pub open spec fn target_label(target: Seq<char>) -> Seq<char> {
    " 🎯 TARGET: "@ + target + " "@
}

/// The target banner: a rule, the label on a badge, a rule.
pub open spec fn target_banner_view(target: Seq<char>) -> Seq<Piece> {
    let label = target_label(target);
    let bar = rep('═', (if label.len() > 20 { label.len() } else { 20 }) + 4);
    seq![
        (bar, grey()),
        ("\n"@, Look::Plain),
        (label, Look::Badge),
        ("\n"@, Look::Plain),
        (bar, grey()),
        ("\n"@, Look::Plain),
    ]
}

/// A prominent banner naming the current target, printed once at the top of
/// a full run.
pub fn target_banner(target: &str) -> (r: Vec<Span>)
    requires
        target@.len() + 20 <= usize::MAX,
    ensures
        r.deep_view() == target_banner_view(target@),
{
    let mut label = crate::text::owned(" 🎯 TARGET: ");
    crate::style::push_str(&mut label, target);
    crate::style::push_str(&mut label, " ");
    let n = chars_of(label.as_str()).len();
    proof {
        reveal_strlit(" 🎯 TARGET: ");
        reveal_strlit(" ");
    }
    let width = if n > 20 {
        n + 4
    } else {
        24
    };
    let mut out: Vec<Span> = Vec::new();
    push_span(&mut out, Span { text: repeat_char('═', width), look: grey_look() });
    push_span(&mut out, span("\n", Look::Plain));
    push_span(&mut out, Span { text: label, look: Look::Badge });
    push_span(&mut out, span("\n", Look::Plain));
    push_span(&mut out, Span { text: repeat_char('═', width), look: grey_look() });
    push_span(&mut out, span("\n", Look::Plain));
    proof {
        assert(out.deep_view() =~= target_banner_view(target@));
    }
    out
}

/// The start-up banner: the logo line by line in a gradient, then the tag line.
pub open spec fn banner_view() -> Seq<Piece> {
    seq![
        ("\n"@, Look::Plain),
        ("  ___  ____ ___ _   _ _____ "@, Look::BoldFg(Tone::Bright(Hue::Cyan))),
        ("\n"@, Look::Plain),
        (" / _ \\/ ___|_ _| \\ | |_   _|"@, Look::BoldFg(Tone::Dark(Hue::Cyan))),
        ("\n"@, Look::Plain),
        ("| | | \\___ \\| ||  \\| | | |  "@, Look::BoldFg(Tone::Bright(Hue::Blue))),
        ("\n"@, Look::Plain),
        ("| |_| |___) | || |\\  | | |  "@, Look::BoldFg(Tone::Dark(Hue::Blue))),
        ("\n"@, Look::Plain),
        (" \\___/|____/___|_| \\_| |_|  "@, Look::BoldFg(Tone::Bright(Hue::Magenta))),
        ("\n"@, Look::Plain),
        ("  passive + active OSINT recon for Kali — one binary, whois → nmap"@, Look::DimmedItalic),
        ("\n"@, Look::Plain),
        ("\n"@, Look::Plain),
    ]
}

/// The ASCII banner printed once at the start of a run (skipped with
/// `--quiet`): the art in a cyan → blue → magenta gradient, line by line,
/// then the tagline.
pub fn banner() -> (r: Vec<Span>)
    ensures
        r.deep_view() == banner_view(),
{
    let mut out: Vec<Span> = Vec::new();
    push_span(&mut out, span("\n", Look::Plain));
    push_span(&mut out, span("  ___  ____ ___ _   _ _____ ", Look::BoldFg(Tone::Bright(Hue::Cyan))));
    push_span(&mut out, span("\n", Look::Plain));
    push_span(&mut out, span(" / _ \\/ ___|_ _| \\ | |_   _|", Look::BoldFg(Tone::Dark(Hue::Cyan))));
    push_span(&mut out, span("\n", Look::Plain));
    push_span(&mut out, span("| | | \\___ \\| ||  \\| | | |  ", Look::BoldFg(Tone::Bright(Hue::Blue))));
    push_span(&mut out, span("\n", Look::Plain));
    push_span(&mut out, span("| |_| |___) | || |\\  | | |  ", Look::BoldFg(Tone::Dark(Hue::Blue))));
    push_span(&mut out, span("\n", Look::Plain));
    push_span(
        &mut out,
        span(" \\___/|____/___|_| \\_| |_|  ", Look::BoldFg(Tone::Bright(Hue::Magenta))),
    );
    push_span(&mut out, span("\n", Look::Plain));
    push_span(
        &mut out,
        span("  passive + active OSINT recon for Kali — one binary, whois → nmap", Look::DimmedItalic),
    );
    push_span(&mut out, span("\n", Look::Plain));
    push_span(&mut out, span("\n", Look::Plain));
    proof {
        assert(out.deep_view() =~= banner_view());
    }
    out
}

} // verus!
