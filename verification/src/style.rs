use colored::Colorize;
use vstd::prelude::*;

use crate::text::{contains, lemma_contains_sub, match_at};


verus! {

/// `colored::Color`, carried through as an opaque value.
#[verifier::external_type_specification]
#[verifier::external_body]
pub struct ExColor(colored::Color);

/// One of the eight base terminal colours.
#[derive(Clone, Copy, PartialEq, Eq, Structural, Debug)]
pub enum Hue {
    Black,
    Red,
    Green,
    Yellow,
    Blue,
    Magenta,
    Cyan,
    White,
}

/// A terminal colour: a base hue in its normal or its bright variant.
#[derive(Clone, Copy, PartialEq, Eq, Structural, Debug)]
pub enum Tone {
    Dark(Hue),
    Bright(Hue),
}

/// How a span of text is drawn.
#[derive(Clone, Copy, PartialEq, Eq, Structural, Debug)]
pub enum Look {
    /// No styling at all.
    Plain,
    /// Foreground colour only.
    Fg(Tone),
    /// Bold, default colour.
    Bold,
    /// Bold with a foreground colour.
    BoldFg(Tone),
    /// Dimmed.
    Dimmed,
    /// Dimmed and italic.
    DimmedItalic,
    /// Bold black text on a bright cyan background.
    Badge,
}

/// A piece of output text together with the way it is drawn.
#[derive(Clone, Debug, PartialEq, Eq)]
pub struct Span {
    pub text: String,
    pub look: Look,
}

/// What a span stands for: its characters and its look.
pub type Piece = (Seq<char>, Look);

impl DeepView for Span {
    type V = Piece;

    open spec fn deep_view(&self) -> Piece {
        (self.text@, self.look)
    }
}

/// The digit that selects a hue in an SGR colour code.
pub open spec fn hue_digit(h: Hue) -> char {
    match h {
        Hue::Black => '0',
        Hue::Red => '1',
        Hue::Green => '2',
        Hue::Yellow => '3',
        Hue::Blue => '4',
        Hue::Magenta => '5',
        Hue::Cyan => '6',
        Hue::White => '7',
    }
}

/// SGR parameter that selects a tone as the foreground colour.
pub open spec fn fg_code(t: Tone) -> Seq<char> {
    match t {
        Tone::Dark(h) => seq!['3', hue_digit(h)],
        Tone::Bright(h) => seq!['9', hue_digit(h)],
    }
}

/// SGR parameters of a look, in the order the terminal library writes them:
/// text attributes, then background, then foreground.
pub open spec fn sgr_params(look: Look) -> Seq<char> {
    match look {
        Look::Plain => seq![],
        Look::Fg(t) => fg_code(t),
        Look::Bold => seq!['1'],
        Look::BoldFg(t) => seq!['1', ';'] + fg_code(t),
        Look::Dimmed => seq!['2'],
        Look::DimmedItalic => seq!['2', ';', '3'],
        Look::Badge => seq!['1', ';', '1', '0', '6', ';', '3', '0'],
    }
}

/// The escape sequence that switches a look on.
pub open spec fn sgr_open(look: Look) -> Seq<char> {
    seq!['\x1b', '['] + sgr_params(look) + seq!['m']
}

/// The escape sequence that switches every look off.
pub open spec fn sgr_reset() -> Seq<char> {
    seq!['\x1b', '[', '0', 'm']
}

/// The text holds an escape character.
pub open spec fn has_esc(s: Seq<char>) -> bool {
    exists|i: int| 0 <= i < s.len() && s[i] == '\x1b'
}

/// `text` with `style` written after every reset sequence in it, which is how
/// the terminal library keeps a look on across a reset that the text itself
/// holds. (A reset sequence cannot overlap another, so reading left to right
/// finds every one.)
#[verifier::opaque]
pub open spec fn restyled(text: Seq<char>, style: Seq<char>) -> Seq<char>
    decreases text.len(),
{
    if text.len() == 0 {
        seq![]
    } else if text.len() >= 4 && text.take(4) == sgr_reset() {
        sgr_reset() + style + restyled(text.skip(4), style)
    } else {
        seq![text[0]] + restyled(text.drop_first(), style)
    }
}

/// Text without escape characters holds no reset sequence to restyle.
pub proof fn lemma_restyled_plain(text: Seq<char>, style: Seq<char>)
    requires
        !has_esc(text),
    ensures
        restyled(text, style) == text,
    decreases text.len(),
{
    reveal(restyled);
    if text.len() > 0 {
        assert(text[0] != '\x1b');
        if text.len() >= 4 {
            assert(text.take(4)[0] == text[0]);
            assert(text.take(4) != sgr_reset());
        }
        assert(!has_esc(text.drop_first())) by {
            if has_esc(text.drop_first()) {
                let i = choose|i: int| 0 <= i < text.drop_first().len() && text.drop_first()[i] == '\x1b';
                assert(text[i + 1] == '\x1b');
            }
        }
        lemma_restyled_plain(text.drop_first(), style);
        assert(text =~= seq![text[0]] + text.drop_first());
    }
}

/// A character that is in neither the text, the style nor the reset sequence
/// is not in the restyled text.
pub proof fn lemma_restyled_lacks(text: Seq<char>, style: Seq<char>, c: char)
    requires
        forall|j: int| 0 <= j < text.len() ==> #[trigger] text[j] != c,
        forall|j: int| 0 <= j < style.len() ==> #[trigger] style[j] != c,
        c != '\x1b' && c != '[' && c != '0' && c != 'm',
    ensures
        forall|j: int| 0 <= j < restyled(text, style).len() ==> #[trigger] restyled(text, style)[j] != c,
    decreases text.len(),
{
    reveal(restyled);
    if text.len() > 0 {
        if text.len() >= 4 && text.take(4) == sgr_reset() {
            let rest = text.skip(4);
            assert forall|j: int| 0 <= j < rest.len() implies #[trigger] rest[j] != c by {
                assert(rest[j] == text[j + 4]);
            }
            lemma_restyled_lacks(rest, style, c);
            let r = restyled(text, style);
            let e = sgr_reset();
            assert forall|j: int| 0 <= j < r.len() implies #[trigger] r[j] != c by {
                if j < 4 {
                    assert(r[j] == e[j]);
                } else if j < 4 + style.len() {
                    assert(r[j] == style[j - 4]);
                } else {
                    assert(r[j] == restyled(rest, style)[j - 4 - style.len()]);
                }
            }
        } else {
            let rest = text.drop_first();
            assert forall|j: int| 0 <= j < rest.len() implies #[trigger] rest[j] != c by {
                assert(rest[j] == text[j + 1]);
            }
            lemma_restyled_lacks(rest, style, c);
            let r = restyled(text, style);
            assert forall|j: int| 0 <= j < r.len() implies #[trigger] r[j] != c by {
                if j > 0 {
                    assert(r[j] == restyled(rest, style)[j - 1]);
                }
            }
        }
    }
}

/// Up to its first escape character, a restyled text is the text itself.
proof fn lemma_restyled_prefix(t: Seq<char>, s: Seq<char>, k: int)
    requires
        0 <= k <= restyled(t, s).len(),
        forall|j: int| 0 <= j < k ==> restyled(t, s)[j] != '\x1b',
    ensures
        k <= t.len(),
        restyled(t, s).take(k) == t.take(k),
    decreases t.len(),
{
    reveal(restyled);
    let r = restyled(t, s);
    if k > 0 {
        if t.len() == 0 {
            assert(r.len() == 0);
        } else if t.len() >= 4 && t.take(4) == sgr_reset() {
            assert(r[0] == sgr_reset()[0]);
        } else {
            let rest = t.drop_first();
            let rr = restyled(rest, s);
            assert(r == seq![t[0]] + rr);
            assert forall|j: int| 0 <= j < k - 1 implies rr[j] != '\x1b' by {
                assert(rr[j] == r[j + 1]);
            }
            lemma_restyled_prefix(rest, s, k - 1);
            assert(r.take(k) =~= seq![t[0]] + rr.take(k - 1));
            assert(t.take(k) =~= seq![t[0]] + rest.take(k - 1));
        }
    } else {
        assert(r.take(0) =~= t.take(0));
    }
}

/// Restyling adds no occurrence of a text without escape characters whose
/// first character is neither in the style nor in the reset sequence.
pub proof fn lemma_restyled_contains(t: Seq<char>, s: Seq<char>, m: Seq<char>)
    requires
        m.len() > 0,
        forall|j: int| 0 <= j < m.len() ==> #[trigger] m[j] != '\x1b',
        forall|j: int| 0 <= j < s.len() ==> #[trigger] s[j] != m[0],
        forall|j: int| 0 <= j < 4 ==> #[trigger] sgr_reset()[j] != m[0],
    ensures
        contains(restyled(t, s), m) ==> contains(t, m),
    decreases t.len(),
{
    reveal(restyled);
    let r = restyled(t, s);
    if contains(r, m) && t.len() > 0 {
        let i = choose|i: int| match_at(r, m, i);
        assert(r.subrange(i, i + m.len())[0] == m[0]);
        assert(r[i] == m[0]);
        if t.len() >= 4 && t.take(4) == sgr_reset() {
            let rest = t.skip(4);
            let rr = restyled(rest, s);
            let head = sgr_reset() + s;
            assert(r == head + rr);
            if i < head.len() {
                if i < 4 {
                    assert(r[i] == sgr_reset()[i]);
                } else {
                    assert(r[i] == s[i - 4]);
                }
            }
            let i2 = i - head.len();
            assert(rr.subrange(i2, i2 + m.len()) =~= r.subrange(i, i + m.len()));
            assert(match_at(rr, m, i2));
            lemma_restyled_contains(rest, s, m);
            lemma_contains_sub(t, 4, t.len() as int, m);
            assert(t.subrange(4, t.len() as int) =~= rest);
        } else {
            let rest = t.drop_first();
            let rr = restyled(rest, s);
            assert(r == seq![t[0]] + rr);
            if i >= 1 {
                let i2 = i - 1;
                assert(rr.subrange(i2, i2 + m.len()) =~= r.subrange(i, i + m.len()));
                assert(match_at(rr, m, i2));
                lemma_restyled_contains(rest, s, m);
                assert(t.subrange(1, t.len() as int) =~= rest);
                lemma_contains_sub(t, 1, t.len() as int, m);
            } else {
                let k = m.len() as int;
                assert forall|j: int| 0 <= j < k implies r[j] != '\x1b' by {
                    assert(r.subrange(0, k)[j] == r[j]);
                    assert(m[j] != '\x1b');
                }
                lemma_restyled_prefix(t, s, k);
                assert(t.subrange(0, k) =~= r.subrange(0, k));
                assert(match_at(t, m, 0));
            }
        }
    }
}

/// A drawing of text without escape characters: the text as is, or between
/// the look's escape sequence and the reset sequence.
pub proof fn lemma_drawn_plain(p: Seq<char>, text: Seq<char>, look: Look)
    requires
        drawn_as(p, text, look),
        !has_esc(text),
    ensures
        p == text || (look != Look::Plain && p == sgr_open(look) + text + sgr_reset()),
{
    lemma_restyled_plain(text, sgr_open(look));
}

/// `p` is one way the terminal library may draw `text` in `look`: as is when
/// colours are off, or, when they are on, between the look's escape sequence
/// and the reset sequence, the look's sequence written again after every
/// reset sequence that the text holds.
pub open spec fn drawn_as(p: Seq<char>, text: Seq<char>, look: Look) -> bool {
    ||| p == text
    ||| (look != Look::Plain && p == sgr_open(look) + restyled(text, sgr_open(look)) + sgr_reset())
}

/// `r` is one way to draw the pieces one after the other.
pub open spec fn shows(r: Seq<char>, pieces: Seq<Piece>) -> bool
    decreases pieces.len(),
{
    if pieces.len() == 0 {
        r.len() == 0
    } else {
        exists|k: int|
            0 <= k <= r.len() && shows(r.take(k), pieces.drop_last()) && drawn_as(
                r.skip(k),
                pieces.last().0,
                pieces.last().1,
            )
    }
}

/// The characters of the pieces, without any styling.
pub open spec fn plain(pieces: Seq<Piece>) -> Seq<char>
    decreases pieces.len(),
{
    if pieces.len() == 0 {
        seq![]
    } else {
        plain(pieces.drop_last()) + pieces.last().0
    }
}

/// The plain text of two runs of pieces is the one text after the other.
pub proof fn lemma_plain_append(a: Seq<Piece>, b: Seq<Piece>)
    ensures
        plain(a + b) == plain(a) + plain(b),
    decreases b.len(),
{
    if b.len() == 0 {
        assert(a + b =~= a);
        assert(plain(a) + plain(b) =~= plain(a));
    } else {
        lemma_plain_append(a, b.drop_last());
        assert((a + b).drop_last() =~= a + b.drop_last());
        assert((a + b).last() == b.last());
        assert(plain(a) + plain(b) =~= plain(a) + plain(b.drop_last()) + b.last().0);
    }
}

/// Pieces that are all drawn plain.
pub open spec fn all_plain(q: Seq<Piece>) -> bool {
    forall|i: int| 0 <= i < q.len() ==> (#[trigger] q[i]).1 == Look::Plain
}

/// A drawing of `p` then plain pieces `q` is a drawing of `p` followed by the
/// text of `q` as is; the result is where the text of `q` starts.
pub proof fn lemma_shows_split(r: Seq<char>, p: Seq<Piece>, q: Seq<Piece>) -> (k: int)
    requires
        shows(r, p + q),
        all_plain(q),
    ensures
        0 <= k <= r.len(),
        shows(r.take(k), p),
        r.skip(k) == plain(q),
    decreases q.len(),
{
    if q.len() == 0 {
        assert(p + q =~= p);
        assert(r.take(r.len() as int) =~= r);
        assert(r.skip(r.len() as int) =~= Seq::<char>::empty());
        r.len() as int
    } else {
        let pq = p + q;
        assert(pq.drop_last() =~= p + q.drop_last());
        assert(pq.last() == q.last());
        assert(q.last().1 == Look::Plain) by {
            assert(q[q.len() - 1].1 == Look::Plain);
        }
        let k1 = choose|k1: int|
            0 <= k1 <= r.len() && shows(r.take(k1), pq.drop_last()) && drawn_as(
                r.skip(k1),
                pq.last().0,
                pq.last().1,
            );
        assert(r.skip(k1) == q.last().0);
        let rt = r.take(k1);
        assert(all_plain(q.drop_last())) by {
            assert forall|i: int| 0 <= i < q.drop_last().len() implies (#[trigger] q.drop_last()[i]).1
                == Look::Plain by {
                assert(q.drop_last()[i] == q[i]);
            }
        }
        let k = lemma_shows_split(rt, p, q.drop_last());
        assert(rt.take(k) =~= r.take(k));
        assert(r.skip(k) =~= rt.skip(k) + r.skip(k1));
        k
    }
}

/// A drawing of `p` then `q` is a drawing of `p` followed by a drawing of
/// `q`; the result is where the drawing of `q` starts.
pub proof fn lemma_shows_concat(r: Seq<char>, p: Seq<Piece>, q: Seq<Piece>) -> (k: int)
    requires
        shows(r, p + q),
    ensures
        0 <= k <= r.len(),
        shows(r.take(k), p),
        shows(r.skip(k), q),
    decreases q.len(),
{
    if q.len() == 0 {
        assert(p + q =~= p);
        assert(r.take(r.len() as int) =~= r);
        assert(r.skip(r.len() as int).len() == 0);
        r.len() as int
    } else {
        let pq = p + q;
        assert(pq.drop_last() =~= p + q.drop_last());
        assert(pq.last() == q.last());
        let k1 = choose|k1: int|
            0 <= k1 <= r.len() && shows(r.take(k1), pq.drop_last()) && drawn_as(
                r.skip(k1),
                pq.last().0,
                pq.last().1,
            );
        let rt = r.take(k1);
        let k = lemma_shows_concat(rt, p, q.drop_last());
        assert(rt.take(k) =~= r.take(k));
        let rs = r.skip(k);
        assert(rs.take(k1 - k) =~= rt.skip(k));
        assert(rs.skip(k1 - k) =~= r.skip(k1));
        assert(shows(rs.take(k1 - k), q.drop_last()) && drawn_as(rs.skip(k1 - k), q.last().0, q.last().1));
        k
    }
}

/// A drawing of one piece.
pub proof fn lemma_shows_one(r: Seq<char>, pc: Piece)
    requires
        shows(r, seq![pc]),
    ensures
        drawn_as(r, pc.0, pc.1),
{
    let p = seq![pc];
    let k = choose|k: int|
        0 <= k <= r.len() && shows(r.take(k), p.drop_last()) && drawn_as(r.skip(k), p.last().0, p.last().1);
    assert(p.drop_last() =~= Seq::<Piece>::empty());
    assert(r.take(k).len() == 0);
    assert(r.skip(0) =~= r);
}

/// A drawing of a title line: the text as is, or in the title's look, then
/// `'\n'`.
pub proof fn lemma_shows_title(r: Seq<char>, t: Seq<char>)
    requires
        shows(r, title_pieces(t)),
    ensures
        r == t + seq!['\n'] || r == sgr_open(Look::BoldFg(Tone::Dark(Hue::Cyan))) + restyled(
            t,
            sgr_open(Look::BoldFg(Tone::Dark(Hue::Cyan))),
        ) + sgr_reset() + seq!['\n'],
{
    reveal_strlit("\n");
    let tp = title_pieces(t);
    assert(tp.last() == ("\n"@, Look::Plain));
    let k = choose|k: int|
        0 <= k <= r.len() && shows(r.take(k), tp.drop_last()) && drawn_as(
            r.skip(k),
            tp.last().0,
            tp.last().1,
        );
    let x = r.take(k);
    assert(tp.drop_last() =~= seq![(t, Look::BoldFg(Tone::Dark(Hue::Cyan)))]);
    let one = tp.drop_last();
    assert(one.drop_last() =~= Seq::<Piece>::empty());
    let k2 = choose|k2: int|
        0 <= k2 <= x.len() && shows(x.take(k2), one.drop_last()) && drawn_as(
            x.skip(k2),
            one.last().0,
            one.last().1,
        );
    assert(x.take(k2).len() == 0);
    assert(x.skip(0) =~= x);
    assert(r =~= x + r.skip(k));
}

// ---------------------------------------------------------------------------
// What remains of a drawing once its escape sequences are removed
// ---------------------------------------------------------------------------

/// Position of the first `m` in `s`, or `s.len()`.
pub open spec fn m_pos(s: Seq<char>) -> nat
    decreases s.len(),
{
    if s.len() == 0 || s[0] == 'm' {
        0
    } else {
        1 + m_pos(s.drop_first())
    }
}

proof fn lemma_m_pos(s: Seq<char>)
    ensures
        m_pos(s) <= s.len(),
        m_pos(s) < s.len() ==> s[m_pos(s) as int] == 'm',
        forall|j: int| 0 <= j < m_pos(s) ==> s[j] != 'm',
    decreases s.len(),
{
    if s.len() > 0 && s[0] != 'm' {
        lemma_m_pos(s.drop_first());
        assert forall|j: int| 0 <= j < m_pos(s) implies s[j] != 'm' by {
            if j > 0 {
                assert(s[j] == s.drop_first()[j - 1]);
            }
        }
    }
}

proof fn lemma_m_pos_is(s: Seq<char>, m: int)
    requires
        0 <= m < s.len(),
        s[m] == 'm',
        forall|j: int| 0 <= j < m ==> s[j] != 'm',
    ensures
        m_pos(s) == m,
    decreases s.len(),
{
    if s[0] != 'm' {
        assert forall|j: int| 0 <= j < m - 1 implies s.drop_first()[j] != 'm' by {
            assert(s.drop_first()[j] == s[j + 1]);
        }
        lemma_m_pos_is(s.drop_first(), m - 1);
    }
}

/// The text a terminal shows: `s` with every escape sequence (an escape
/// character up to and including the next `m`) removed.
pub open spec fn unstyled(s: Seq<char>) -> Seq<char>
    decreases s.len(),
{
    if s.len() == 0 {
        seq![]
    } else if s[0] == '\x1b' {
        if m_pos(s) < s.len() {
            unstyled(s.skip(m_pos(s) as int + 1))
        } else {
            seq![]
        }
    } else {
        seq![s[0]] + unstyled(s.drop_first())
    }
}

/// Every escape sequence of `s` ends within `s`.
pub open spec fn closed(s: Seq<char>) -> bool
    decreases s.len(),
{
    if s.len() == 0 {
        true
    } else if s[0] == '\x1b' {
        m_pos(s) < s.len() && closed(s.skip(m_pos(s) as int + 1))
    } else {
        closed(s.drop_first())
    }
}

/// After text whose escape sequences all end, the rest is read on its own.
proof fn lemma_unstyled_append(a: Seq<char>, b: Seq<char>)
    requires
        closed(a),
    ensures
        unstyled(a + b) == unstyled(a) + unstyled(b),
        closed(a + b) == closed(b),
    decreases a.len(),
{
    let s = a + b;
    if a.len() == 0 {
        assert(s =~= b);
    } else if a[0] == '\x1b' {
        lemma_m_pos(a);
        let i = m_pos(a) as int;
        assert forall|j: int| 0 <= j < i implies s[j] != 'm' by {
            assert(s[j] == a[j]);
        }
        assert(s[i] == a[i]);
        lemma_m_pos_is(s, i);
        assert(s.skip(i + 1) =~= a.skip(i + 1) + b);
        lemma_unstyled_append(a.skip(i + 1), b);
    } else {
        assert(s[0] == a[0]);
        assert(s.drop_first() =~= a.drop_first() + b);
        lemma_unstyled_append(a.drop_first(), b);
        assert(unstyled(s) =~= seq![a[0]] + (unstyled(a.drop_first()) + unstyled(b)));
    }
}

/// Text without escape characters shows as is.
proof fn lemma_unstyled_plain(t: Seq<char>)
    requires
        !has_esc(t),
    ensures
        unstyled(t) == t,
        closed(t),
    decreases t.len(),
{
    if t.len() > 0 {
        assert(t[0] != '\x1b');
        assert(!has_esc(t.drop_first())) by {
            if has_esc(t.drop_first()) {
                let i = choose|i: int| 0 <= i < t.drop_first().len() && t.drop_first()[i] == '\x1b';
                assert(t[i + 1] == '\x1b');
            }
        }
        lemma_unstyled_plain(t.drop_first());
        assert(t =~= seq![t[0]] + t.drop_first());
    }
}

/// A piece drawn in any look shows its own text.
proof fn lemma_unstyled_drawn(p: Seq<char>, text: Seq<char>, look: Look)
    requires
        drawn_as(p, text, look),
        !has_esc(text),
    ensures
        unstyled(p) == text,
        closed(p),
{
    lemma_unstyled_plain(text);
    lemma_restyled_plain(text, sgr_open(look));
    if p != text {
        let o = sgr_open(look);
        let e = sgr_reset();
        let q = sgr_params(look);
        assert(o =~= seq!['\x1b', '['] + q + seq!['m']);
        assert(forall|j: int| 0 <= j < q.len() ==> #[trigger] q[j] != 'm') by {
            match look {
                Look::Fg(t) => {
                    assert(q == fg_code(t));
                },
                Look::BoldFg(t) => {
                    assert(q =~= seq!['1', ';'] + fg_code(t));
                },
                _ => {},
            }
        }
        let k = o.len() - 1;
        assert(p =~= o + (text + e));
        assert forall|j: int| 0 <= j < k implies p[j] != 'm' by {
            assert(p[j] == o[j]);
            if j >= 2 {
                assert(o[j] == q[j - 2]);
            }
        }
        assert(p[k] == 'm');
        lemma_m_pos_is(p, k);
        assert(p.skip(k + 1) =~= text + e);
        assert(e =~= seq!['\x1b', '[', '0', 'm']);
        assert(m_pos(e) == 3) by {
            lemma_m_pos_is(e, 3);
        }
        assert(e.skip(4) =~= Seq::<char>::empty());
        assert(e[0] == '\x1b');
        assert(unstyled(e) == unstyled(e.skip(4)));
        assert(unstyled(Seq::<char>::empty()) == Seq::<char>::empty());
        assert(closed(e) == closed(e.skip(4)));
        assert(closed(Seq::<char>::empty()));
        lemma_unstyled_append(text, e);
        assert(text + Seq::<char>::empty() =~= text);
    }
}

/// Colour changes nothing but escape sequences: a drawing of pieces whose
/// texts hold no escape character shows, once its escape sequences are
/// removed, exactly the pieces' text.
pub proof fn lemma_shows_unstyled(r: Seq<char>, pieces: Seq<Piece>)
    requires
        shows(r, pieces),
        forall|i: int| 0 <= i < pieces.len() ==> !has_esc(#[trigger] pieces[i].0),
    ensures
        unstyled(r) == plain(pieces),
        closed(r),
    decreases pieces.len(),
{
    if pieces.len() == 0 {
        assert(r.len() == 0);
    } else {
        let k = choose|k: int|
            0 <= k <= r.len() && shows(r.take(k), pieces.drop_last()) && drawn_as(
                r.skip(k),
                pieces.last().0,
                pieces.last().1,
            );
        assert forall|i: int| 0 <= i < pieces.drop_last().len() implies !has_esc(
            #[trigger] pieces.drop_last()[i].0,
        ) by {
            assert(pieces.drop_last()[i] == pieces[i]);
        }
        lemma_shows_unstyled(r.take(k), pieces.drop_last());
        assert(!has_esc(pieces[pieces.len() - 1].0));
        lemma_unstyled_drawn(r.skip(k), pieces.last().0, pieces.last().1);
        assert(r =~= r.take(k) + r.skip(k));
        lemma_unstyled_append(r.take(k), r.skip(k));
    }
}

/// Converts a hue in its normal variant to the terminal library's colour.
#[verifier::external_body]
fn dark_color(h: Hue) -> colored::Color {
    match h {
        Hue::Black => colored::Color::Black,
        Hue::Red => colored::Color::Red,
        Hue::Green => colored::Color::Green,
        Hue::Yellow => colored::Color::Yellow,
        Hue::Blue => colored::Color::Blue,
        Hue::Magenta => colored::Color::Magenta,
        Hue::Cyan => colored::Color::Cyan,
        Hue::White => colored::Color::White,
    }
}

/// Converts a hue in its bright variant to the terminal library's colour.
#[verifier::external_body]
fn bright_color(h: Hue) -> colored::Color {
    match h {
        Hue::Black => colored::Color::BrightBlack,
        Hue::Red => colored::Color::BrightRed,
        Hue::Green => colored::Color::BrightGreen,
        Hue::Yellow => colored::Color::BrightYellow,
        Hue::Blue => colored::Color::BrightBlue,
        Hue::Magenta => colored::Color::BrightMagenta,
        Hue::Cyan => colored::Color::BrightCyan,
        Hue::White => colored::Color::BrightWhite,
    }
}

fn tone_color(t: Tone) -> colored::Color {
    match t {
        Tone::Dark(h) => dark_color(h),
        Tone::Bright(h) => bright_color(h),
    }
}

/// Draws `text` in `look` with `colored` (its `Colorize` methods and the
/// `Display` of `ColoredString`). Whether escape codes are written depends on
/// the environment and on the terminal (`NO_COLOR`, `CLICOLOR`, a tty on
/// stdout), so the contract only says the output is the text itself or the
/// text between the look's SGR sequence and the reset sequence; for text that
/// already holds an escape character it says nothing of the second case.
#[verifier::external_body]
pub(crate) fn paint(text: &str, look: Look) -> (r: String)
    ensures
        drawn_as(r@, text@, look),
{
    let cs = match look {
        Look::Plain => text.normal(),
        Look::Fg(t) => text.color(tone_color(t)),
        Look::Bold => text.bold(),
        Look::BoldFg(t) => text.bold().color(tone_color(t)),
        Look::Dimmed => text.dimmed(),
        Look::DimmedItalic => text.dimmed().italic(),
        Look::Badge => text.bold().black().on_bright_cyan(),
    };
    format!("{cs}")
}

/// Appends a copy of `s` to `out`.
pub fn push_str(out: &mut String, s: &str)
    ensures
        final(out)@ == old(out)@ + s@,
{
    out.append(s);
}

/// Draws the spans one after the other. Where no span's text holds an escape
/// character, the drawing shows exactly the spans' text, coloured or not.
pub fn render(spans: &Vec<Span>) -> (r: String)
    ensures
        shows(r@, spans.deep_view()),
        (forall|i: int| 0 <= i < spans.deep_view().len() ==> !has_esc(#[trigger] spans.deep_view()[i].0))
            ==> unstyled(r@) == plain(spans.deep_view()),
{
    let mut r = String::new();
    let mut i: usize = 0;
    proof {
        assert(spans.deep_view().take(0) =~= Seq::<Piece>::empty());
    }
    while i < spans.len()
        invariant
            i <= spans@.len(),
            shows(r@, spans.deep_view().take(i as int)),
        decreases spans@.len() - i,
    {
        let ghost before = r@;
        let s = &spans[i];
        let drawn = paint(s.text.as_str(), s.look);
        push_str(&mut r, drawn.as_str());
        proof {
            let pieces = spans.deep_view().take(i + 1);
            assert(pieces.drop_last() =~= spans.deep_view().take(i as int));
            assert(r@.take(before.len() as int) =~= before);
            assert(r@.skip(before.len() as int) =~= drawn@);
            assert(pieces.last() == s.deep_view());
        }
        i = i + 1;
    }
    proof {
        assert(spans.deep_view().take(i as int) =~= spans.deep_view());
        if forall|i: int| 0 <= i < spans.deep_view().len() ==> !has_esc(#[trigger] spans.deep_view()[i].0) {
            lemma_shows_unstyled(r@, spans.deep_view());
        }
    }
    r
}

impl Span {
    /// A copy of the span.
    pub fn clone_span(&self) -> (r: Span)
        ensures
            r.deep_view() == self.deep_view(),
    {
        Span { text: self.text.clone(), look: self.look }
    }
}

/// A span holding a copy of `text`.
pub fn span(text: &str, look: Look) -> (r: Span)
    ensures
        r.deep_view() == (text@, look),
{
    Span { text: text.to_owned(), look }
}

/// A span holding exactly the given characters.
pub fn span_chars(text: &[char], look: Look) -> (r: Span)
    ensures
        r.deep_view() == (text@, look),
{
    Span { text: crate::text::string_of(text), look }
}

/// A span holding `a` followed by `b`.
pub fn span2(a: &str, b: &str, look: Look) -> (r: Span)
    ensures
        r.deep_view() == (a@ + b@, look),
{
    let mut t = a.to_owned();
    push_str(&mut t, b);
    Span { text: t, look }
}

/// A span holding `a`, `b` and `c` in a row.
pub fn span3(a: &str, b: &str, c: &str, look: Look) -> (r: Span)
    ensures
        r.deep_view() == (a@ + b@ + c@, look),
{
    let mut t = a.to_owned();
    push_str(&mut t, b);
    push_str(&mut t, c);
    Span { text: t, look }
}

/// The bold cyan title line that heads every lookup report.
pub open spec fn title_pieces(title: Seq<char>) -> Seq<Piece> {
    seq![(title, Look::BoldFg(Tone::Dark(Hue::Cyan))), ("\n"@, Look::Plain)]
}

/// Appends the title line `title` to `out`.
pub fn push_title(out: &mut Vec<Span>, title: String)
    ensures
        final(out).deep_view() == old(out).deep_view() + title_pieces(title@),
{
    let ghost before = out.deep_view();
    let ghost t = title@;
    push_span(out, Span { text: title, look: Look::BoldFg(Tone::Dark(Hue::Cyan)) });
    push_span(out, span("\n", Look::Plain));
    proof {
        assert(out.deep_view() =~= before + title_pieces(t));
    }
}

/// Appends one span to `out`.
pub fn push_span(out: &mut Vec<Span>, s: Span)
    ensures
        final(out).deep_view() == old(out).deep_view().push(s.deep_view()),
{
    let ghost before = out.deep_view();
    out.push(s);
    proof {
        assert(out.deep_view() =~= before.push(s.deep_view()));
    }
}

} // verus!
