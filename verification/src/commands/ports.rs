use vstd::prelude::*;

use crate::shell::Invocation;
use crate::style::{
    has_esc, lemma_drawn_plain, lemma_restyled_lacks, lemma_shows_concat, lemma_shows_title, lemma_shows_one, restyled, push_span, push_title, sgr_open, sgr_reset, shows,
    span, span2, span_chars, title_pieces, Hue, Look, Piece, Span, Tone,
};
use crate::text::{
    blank, chars_of, contains, contains_chars, is_blank, lemma_contains_wrapped, lemma_lines_append,
    lemma_lines_cons, lemma_lines_lack, lines, match_at, matches_at, split_lines, starts_with, strip_cr,
};
use crate::ui::{count_open, lemma_count_open_append, shows_open_port};

verus! {

/// Seconds for a fast scan of the ~100 most common ports.
pub const FAST_TIMEOUT_SECS: u64 = 90;

/// Seconds for a scan of nmap's full default port range.
pub const FULL_TIMEOUT_SECS: u64 = 240;

/// `nmap -F -T4 <target>` (fast scan of the most common ports) when
/// `top_ports`, else `nmap -T4 <target>`.
pub fn invocation(target: &str, top_ports: bool) -> (r: Invocation)
    ensures
        r.bin@ == "nmap"@,
        top_ports ==> r.args.len() == 3 && r.args[0]@ == "-F"@ && r.args[1]@ == "-T4"@
            && r.args[2]@ == target@ && r.timeout_secs == FAST_TIMEOUT_SECS,
        !top_ports ==> r.args.len() == 2 && r.args[0]@ == "-T4"@ && r.args[1]@ == target@
            && r.timeout_secs == FULL_TIMEOUT_SECS,
{
    if top_ports {
        let args: [&str; 3] = ["-F", "-T4", target];
        crate::shell::run_timeout("nmap", &args, FAST_TIMEOUT_SECS)
    } else {
        let args: [&str; 2] = ["-T4", target];
        crate::shell::run_timeout("nmap", &args, FULL_TIMEOUT_SECS)
    }
}

/// A row of the port table: green when the port is open.
pub open spec fn row(l: Seq<char>) -> Seq<Piece> {
    seq![
        ("  "@, Look::Plain),
        (l, if contains(l, "open"@) {
            Look::Fg(Tone::Dark(Hue::Green))
        } else {
            Look::Plain
        }),
        ("\n"@, Look::Plain),
    ]
}

/// The port table read out of nmap's output, from the given state on: the
/// rendered rows, and whether any port row was seen. A line starting with
/// `PORT` opens the table (and is shown bold); a blank line closes it.
pub open spec fn table(ls: Seq<Seq<char>>, in_table: bool) -> (Seq<Piece>, bool)
    decreases ls.len(),
{
    if ls.len() == 0 {
        (seq![], false)
    } else {
        let l = ls[0];
        if starts_with(l, "PORT"@) {
            let rest = table(ls.drop_first(), true);
            (seq![("  "@, Look::Plain), (l, Look::Bold), ("\n"@, Look::Plain)] + rest.0, rest.1)
        } else if in_table && !is_blank(l) {
            let rest = table(ls.drop_first(), true);
            (row(l) + rest.0, true)
        } else {
            table(ls.drop_first(), false)
        }
    }
}

/// The ports report: a title line, nmap's port table, and a note when the
/// table has no port rows.
pub open spec fn report(target: Seq<char>, output: Seq<char>) -> Seq<Piece> {
    let t = table(lines(output), false);
    title_pieces("Open ports on "@ + target) + t.0 + if t.1 {
        seq![]
    } else {
        seq![("  (no open ports found in scanned range)\n"@, Look::Plain)]
    }
}

/// The open-ports report: nmap's port table, open ports in green.
pub fn run(target: &str, output: &str) -> (r: Vec<Span>)
    ensures
        r.deep_view() == report(target@, output@),
{
    let mut out: Vec<Span> = Vec::new();
    push_title(&mut out, span2("Open ports on ", target, Look::Plain).text);
    let ghost head = out.deep_view();
    let ls = split_lines(&chars_of(output));
    let ghost all = ls.deep_view();
    let port = chars_of("PORT");
    let open = chars_of("open");
    let mut in_table = false;
    let mut found_any = false;
    let mut i: usize = 0;
    proof {
        assert(all.skip(0) =~= all);
        assert(head + Seq::<Piece>::empty() =~= head);
    }
    while i < ls.len()
        invariant
            i <= ls.len(),
            all == ls.deep_view(),
            all == lines(output@),
            port@ == "PORT"@,
            open@ == "open"@,
            ({
                let whole = table(all, false);
                let rest = table(all.skip(i as int), in_table);
                &&& whole.0 == out.deep_view().skip(head.len() as int) + rest.0
                &&& whole.1 == (found_any || rest.1)
            }),
            out.deep_view().take(head.len() as int) == head,
            out.deep_view().len() >= head.len(),
        decreases ls.len() - i,
    {
        let ghost before = out.deep_view();
        let ghost rest = all.skip(i as int);
        let line = &ls[i];
        proof {
            assert(rest[0] == line@);
            assert(rest.drop_first() =~= all.skip(i + 1));
        }
        if matches_at(line, &port, 0) {
            in_table = true;
            push_span(&mut out, span("  ", Look::Plain));
            push_span(&mut out, span_chars(line, Look::Bold));
            push_span(&mut out, span("\n", Look::Plain));
        } else if in_table && !blank(line) {
            found_any = true;
            let look = if contains_chars(line, &open) {
                Look::Fg(Tone::Dark(Hue::Green))
            } else {
                Look::Plain
            };
            push_span(&mut out, span("  ", Look::Plain));
            push_span(&mut out, span_chars(line, look));
            push_span(&mut out, span("\n", Look::Plain));
        } else {
            in_table = false;
        }
        proof {
            assert(out.deep_view().take(head.len() as int) =~= head);
            let added = out.deep_view().skip(before.len() as int);
            assert(out.deep_view().skip(head.len() as int) =~= before.skip(head.len() as int) + added);
        }
        i = i + 1;
    }
    proof {
        assert(all.skip(i as int) =~= Seq::<Seq<char>>::empty());
        assert(out.deep_view().skip(head.len() as int) + Seq::<Piece>::empty() =~= out.deep_view().skip(head.len() as int));
        assert(out.deep_view() =~= head + out.deep_view().skip(head.len() as int));
    }
    if !found_any {
        push_span(&mut out, span("  (no open ports found in scanned range)\n", Look::Plain));
    }
    proof {
        assert(out.deep_view() =~= report(target@, output@));
    }
    out
}

/// The nmap lines that the port table shows, header lines included, in
/// order, from the given state on.
pub open spec fn table_lines(ls: Seq<Seq<char>>, in_table: bool) -> Seq<Seq<char>>
    decreases ls.len(),
{
    if ls.len() == 0 {
        seq![]
    } else {
        let l = ls[0];
        if starts_with(l, "PORT"@) || (in_table && !is_blank(l)) {
            seq![l] + table_lines(ls.drop_first(), true)
        } else {
            table_lines(ls.drop_first(), false)
        }
    }
}

/// Text none of whose characters occurs in `open` or in `/`.
spec fn apart(a: Seq<char>) -> bool {
    forall|i: int|
        0 <= i < a.len() ==> #[trigger] a[i] != 'o' && a[i] != 'p' && a[i] != 'e' && a[i] != 'n' && a[i]
            != '/'
}

proof fn lemma_open_wrapped(a: Seq<char>, l: Seq<char>, b: Seq<char>)
    requires
        apart(a),
        apart(b),
    ensures
        shows_open_port(a + l + b) == shows_open_port(l),
{
    reveal_strlit("open");
    reveal_strlit("/");
    let o = "open"@;
    let sl = "/"@;
    assert(o =~= seq!['o', 'p', 'e', 'n']);
    assert(sl =~= seq!['/']);
    assert forall|i: int| 0 <= i < a.len() implies #[trigger] a[i] != o[0] && a[i] != sl[0] by {}
    assert forall|i: int| 0 <= i < b.len() implies #[trigger] b[i] != o[o.len() - 1] && b[i] != sl[
        sl.len() - 1
    ] by {}
    lemma_contains_wrapped(a, l, b, o);
    lemma_contains_wrapped(a, l, b, sl);
}

/// One drawn line of the port table: two spaces, the nmap line (plain or in
/// its colour), a line break; it shows an open port exactly when the nmap
/// line does.
proof fn lemma_drawn_line(r: Seq<char>, l: Seq<char>, look: Look) -> (line: Seq<char>)
    requires
        shows(r, seq![("  "@, Look::Plain), (l, look), ("\n"@, Look::Plain)]),
        look == Look::Plain || look == Look::Bold || look == Look::Fg(Tone::Dark(Hue::Green)),
        forall|j: int| 0 <= j < l.len() ==> #[trigger] l[j] != '\n' && l[j] != '\x1b',
    ensures
        r == line + seq!['\n'],
        forall|j: int| 0 <= j < line.len() ==> #[trigger] line[j] != '\n',
        shows_open_port(strip_cr(line)) == shows_open_port(l),
{
    reveal_strlit("  ");
    reveal_strlit("\n");
    let sp = seq![' ', ' '];
    assert("  "@ =~= sp);
    let a = ("  "@, Look::Plain);
    let b = (l, look);
    let c = ("\n"@, Look::Plain);
    assert(seq![a, b, c] =~= seq![a, b] + seq![c]);
    let k = lemma_shows_concat(r, seq![a, b], seq![c]);
    lemma_shows_one(r.skip(k), c);
    let r1 = r.take(k);
    assert(seq![a, b] =~= seq![a] + seq![b]);
    let k2 = lemma_shows_concat(r1, seq![a], seq![b]);
    lemma_shows_one(r1.take(k2), a);
    let x = r1.skip(k2);
    assert(x == l || (look != Look::Plain && x == sgr_open(look) + l + sgr_reset())) by {
        lemma_shows_one(x, b);
        assert(!has_esc(l));
        lemma_drawn_plain(x, l, look);
    }
    assert(r1 =~= r1.take(k2) + x);
    assert(r =~= r1 + r.skip(k));
    let line = sp + x;
    assert(r =~= line + seq!['\n']);
    assert(apart(sp));
    if x == l {
        assert forall|j: int| 0 <= j < line.len() implies #[trigger] line[j] != '\n' by {
            if j >= 2 {
                assert(line[j] == l[j - 2]);
            }
        }
        if l.len() > 0 && l.last() == '\r' {
            let l0 = l.drop_last();
            assert(strip_cr(line) =~= sp + l0 + Seq::<char>::empty());
            assert(l =~= Seq::<char>::empty() + l0 + seq!['\r']);
            lemma_open_wrapped(sp, l0, Seq::<char>::empty());
            lemma_open_wrapped(Seq::<char>::empty(), l0, seq!['\r']);
        } else {
            assert(strip_cr(line) == line);
            assert(line =~= sp + l + Seq::<char>::empty());
            lemma_open_wrapped(sp, l, Seq::<char>::empty());
        }
    } else {
        let o = sgr_open(look);
        let e = sgr_reset();
        assert(x == o + l + e);
        if look == Look::Bold {
            assert(o =~= seq!['\x1b', '[', '1', 'm']);
        } else {
            assert(o =~= seq!['\x1b', '[', '3', '2', 'm']);
        }
        assert(apart(sp + o));
        assert(apart(e));
        assert(line =~= (sp + o) + l + e);
        assert(line.last() == 'm');
        assert(strip_cr(line) == line);
        lemma_open_wrapped(sp + o, l, e);
        assert forall|j: int| 0 <= j < line.len() implies #[trigger] line[j] != '\n' by {
            if j < (sp + o).len() {
                assert(line[j] == (sp + o)[j]);
            } else if j < (sp + o).len() + l.len() {
                assert(line[j] == l[j - (sp + o).len()]);
            } else {
                assert(line[j] == e[j - (sp + o).len() - l.len()]);
            }
        }
    }
    line
}

proof fn lemma_count_one(x: Seq<char>)
    ensures
        count_open(seq![x]) == if shows_open_port(x) {
            1nat
        } else {
            0nat
        },
{
    assert(seq![x].drop_last() =~= Seq::<Seq<char>>::empty());
    assert(count_open(Seq::<Seq<char>>::empty()) == 0);
    assert(seq![x].last() == x);
}

/// A drawn port table holds as many open-port lines as the nmap lines it
/// shows.
proof fn lemma_table_read_back(r: Seq<char>, ls: Seq<Seq<char>>, in_table: bool)
    requires
        shows(r, table(ls, in_table).0),
        forall|i: int, j: int|
            0 <= i < ls.len() && 0 <= j < ls[i].len() ==> #[trigger] ls[i][j] != '\n' && ls[i][j]
                != '\x1b',
    ensures
        r.len() == 0 || r.last() == '\n',
        count_open(lines(r)) == count_open(table_lines(ls, in_table)),
    decreases ls.len(),
{
    if ls.len() == 0 {
        assert(r.len() == 0);
        assert(lines(r) =~= Seq::<Seq<char>>::empty());
    } else {
        let l = ls[0];
        let tail = ls.drop_first();
        assert forall|i: int, j: int| 0 <= i < tail.len() && 0 <= j < tail[i].len() implies #[trigger] tail[i][j]
            != '\n' && tail[i][j] != '\x1b' by {
            assert(tail[i] == ls[i + 1]);
        }
        assert forall|j: int| 0 <= j < l.len() implies #[trigger] l[j] != '\n' && l[j] != '\x1b' by {
            assert(ls[0][j] == l[j]);
        }
        if starts_with(l, "PORT"@) || (in_table && !is_blank(l)) {
            let look = if starts_with(l, "PORT"@) {
                Look::Bold
            } else if contains(l, "open"@) {
                Look::Fg(Tone::Dark(Hue::Green))
            } else {
                Look::Plain
            };
            let three = seq![("  "@, Look::Plain), (l, look), ("\n"@, Look::Plain)];
            let rest = table(tail, true);
            assert(table(ls, in_table).0 == three + rest.0);
            let k = lemma_shows_concat(r, three, rest.0);
            let line = lemma_drawn_line(r.take(k), l, look);
            let r2 = r.skip(k);
            lemma_table_read_back(r2, tail, true);
            assert(r =~= line + seq!['\n'] + r2);
            lemma_lines_cons(line, r2);
            lemma_count_open_append(seq![strip_cr(line)], lines(r2));
            lemma_count_open_append(seq![l], table_lines(tail, true));
            lemma_count_one(strip_cr(line));
            lemma_count_one(l);
            if r2.len() > 0 {
                assert(r.last() == r2.last());
            }
        } else {
            lemma_table_read_back(r, tail, false);
        }
    }
}

/// A line without `/` shows no open port.
proof fn lemma_no_slash(x: Seq<char>)
    requires
        forall|j: int| 0 <= j < x.len() ==> #[trigger] x[j] != '/',
    ensures
        count_open(seq![strip_cr(x)]) == 0,
{
    reveal_strlit("/");
    let sx = strip_cr(x);
    assert(!contains(sx, "/"@)) by {
        if contains(sx, "/"@) {
            let i = choose|i: int| match_at(sx, "/"@, i);
            assert(sx.subrange(i, i + 1)[0] == sx[i]);
            assert(sx[i] == x[i]);
        }
    }
    lemma_count_one(sx);
}

/// The drawn title of a ports report, for a target without `/`, holds no `/`.
proof fn lemma_title_no_slash(x: Seq<char>, title: Seq<char>)
    requires
        x == title || x == sgr_open(Look::BoldFg(Tone::Dark(Hue::Cyan))) + restyled(
            title,
            sgr_open(Look::BoldFg(Tone::Dark(Hue::Cyan))),
        ) + sgr_reset(),
        forall|j: int| 0 <= j < title.len() ==> #[trigger] title[j] != '/',
    ensures
        forall|j: int| 0 <= j < x.len() ==> #[trigger] x[j] != '/',
{
    let o = sgr_open(Look::BoldFg(Tone::Dark(Hue::Cyan)));
    assert(o =~= seq!['\x1b', '[', '1', ';', '3', '6', 'm']);
    assert forall|j: int| 0 <= j < o.len() implies #[trigger] o[j] != '/' by {}
    lemma_restyled_lacks(title, o, '/');
    let m = restyled(title, o);
    assert forall|j: int| 0 <= j < x.len() implies #[trigger] x[j] != '/' by {
        if x != title {
            if j < 7 {
                assert(x[j] == o[j]);
            } else if j < 7 + m.len() {
                assert(x[j] == m[j - 7]);
            } else {
                assert(x[j] == sgr_reset()[j - 7 - m.len()]);
            }
        }
    }
}

/// The line that follows a table without port rows shows no open port.
proof fn lemma_none_line(r: Seq<char>)
    requires
        shows(r, seq![("  (no open ports found in scanned range)\n"@, Look::Plain)]),
    ensures
        count_open(lines(r)) == 0,
{
    reveal_strlit("  (no open ports found in scanned range)\n");
    let none = "  (no open ports found in scanned range)\n"@;
    lemma_shows_one(r, (none, Look::Plain));
    let nl = none.drop_last();
    assert(none =~= nl + seq!['\n'] + Seq::<char>::empty());
    assert forall|j: int| 0 <= j < nl.len() implies #[trigger] nl[j] != '\n' && nl[j] != '/' by {
        assert(nl[j] == none[j]);
    }
    lemma_lines_cons(nl, Seq::<char>::empty());
    assert(lines(r) =~= seq![strip_cr(nl)]);
    lemma_no_slash(nl);
}

/// Lines without `/` show no open port.
proof fn lemma_no_slash_lines(ls: Seq<Seq<char>>)
    requires
        forall|i: int, j: int| 0 <= i < ls.len() && 0 <= j < ls[i].len() ==> #[trigger] ls[i][j] != '/',
    ensures
        count_open(ls) == 0,
    decreases ls.len(),
{
    if ls.len() > 0 {
        let l = ls.last();
        assert forall|i: int, j: int| 0 <= i < ls.drop_last().len() && 0 <= j < ls.drop_last()[i].len() implies #[trigger] ls.drop_last()[i][j]
            != '/' by {
            assert(ls.drop_last()[i] == ls[i]);
        }
        lemma_no_slash_lines(ls.drop_last());
        reveal_strlit("/");
        assert(!contains(l, "/"@)) by {
            if contains(l, "/"@) {
                let i = choose|i: int| match_at(l, "/"@, i);
                assert(l.subrange(i, i + 1)[0] == l[i]);
                assert(ls[ls.len() - 1][i] == '/');
            }
        }
    }
}

/// What the dashboard reads back from a drawn ports report: the number of
/// lines of nmap's port table that show an open port, whether or not colour
/// was on (for a target without `/` and nmap output without escape codes).
pub proof fn lemma_read_back(r: Seq<char>, target: Seq<char>, output: Seq<char>)
    requires
        shows(r, report(target, output)),
        forall|j: int| 0 <= j < target.len() ==> #[trigger] target[j] != '/',
        !has_esc(output),
    ensures
        count_open(lines(r)) == count_open(table_lines(lines(output), false)),
{
    reveal_strlit("Open ports on ");
    let lit = "Open ports on "@;
    let title = lit + target;
    assert forall|j: int| 0 <= j < title.len() implies #[trigger] title[j] != '/' by {
        if j >= lit.len() {
            assert(title[j] == target[j - lit.len()]);
        }
    }
    let ls = lines(output);
    assert forall|k: int| 0 <= k < output.len() implies #[trigger] output[k] != '\x1b' by {}
    lemma_lines_lack(output, '\x1b');
    let t = table(ls, false);
    let none = "  (no open ports found in scanned range)\n"@;
    let tail: Seq<Piece> = if t.1 {
        seq![]
    } else {
        seq![(none, Look::Plain)]
    };
    assert(report(target, output) =~= title_pieces(title) + (t.0 + tail));
    let k = lemma_shows_concat(r, title_pieces(title), t.0 + tail);
    lemma_shows_title(r.take(k), title);
    let o = sgr_open(Look::BoldFg(Tone::Dark(Hue::Cyan)));
    let x = r.take(k).drop_last();
    assert(x == title || x == o + restyled(title, o) + sgr_reset()) by {
        if r.take(k) == title + seq!['\n'] {
            assert(x =~= title);
        } else {
            assert(x =~= o + restyled(title, o) + sgr_reset());
        }
    }
    assert(r.take(k) =~= x + seq!['\n']);
    let r2 = r.skip(k);
    let k2 = lemma_shows_concat(r2, t.0, tail);
    let rt = r2.take(k2);
    let r3 = r2.skip(k2);
    lemma_table_read_back(rt, ls, false);
    assert(r =~= (x + seq!['\n']) + (rt + r3));
    lemma_lines_append(x + seq!['\n'], rt + r3);
    lemma_lines_append(rt, r3);
    lemma_title_no_slash(x, title);
    let xn = x + seq!['\n'];
    assert forall|k: int| 0 <= k < xn.len() implies #[trigger] xn[k] != '/' by {
        if k < x.len() {
            assert(xn[k] == x[k]);
        }
    }
    lemma_lines_lack(xn, '/');
    lemma_no_slash_lines(lines(xn));
    assert(count_open(lines(r3)) == 0) by {
        if t.1 {
            assert(r3.len() == 0);
            assert(lines(r3) =~= Seq::<Seq<char>>::empty());
        } else {
            lemma_none_line(r3);
        }
    }
    lemma_count_open_append(lines(xn), lines(rt) + lines(r3));
    lemma_count_open_append(lines(rt), lines(r3));
}

} // verus!
