use vstd::prelude::*;
use vstd::utf8::{decode_utf8, valid_utf8};

verus! {

/// Unicode `White_Space`: the characters that `char::is_whitespace` accepts.
pub open spec fn is_ws(c: char) -> bool {
    ||| ('\u{9}' <= c && c <= '\u{d}')
    ||| c == ' '
    ||| c == '\u{85}'
    ||| c == '\u{a0}'
    ||| c == '\u{1680}'
    ||| ('\u{2000}' <= c && c <= '\u{200a}')
    ||| c == '\u{2028}'
    ||| c == '\u{2029}'
    ||| c == '\u{202f}'
    ||| c == '\u{205f}'
    ||| c == '\u{3000}'
}

/// `char::is_whitespace`.
pub fn is_whitespace(c: char) -> (r: bool)
    ensures
        r == is_ws(c),
{
    ('\u{9}' <= c && c <= '\u{d}') || c == ' ' || c == '\u{85}' || c == '\u{a0}' || c == '\u{1680}'
        || ('\u{2000}' <= c && c <= '\u{200a}') || c == '\u{2028}' || c == '\u{2029}' || c
        == '\u{202f}' || c == '\u{205f}' || c == '\u{3000}'
}

/// The characters of a string slice, in order.
pub fn chars_of(s: &str) -> (r: Vec<char>)
    ensures
        r@ == s@,
{
    let mut r: Vec<char> = Vec::new();
    for c in it: s.chars()
        invariant
            r@ == it.seq().take(it.index() as int),
            it.seq() == s@,
    {
        r.push(c);
        proof {
            assert(it.seq().take(it.index() as int + 1) =~= r@);
        }
    }
    r
}


/// `String::push`: appends one character.
#[verifier::external_body]
pub(crate) fn push_char(s: &mut String, c: char)
    ensures
        final(s)@ == old(s)@.push(c),
{
    s.push(c);
}

/// `s` as one file-name component: every `/` replaced by `_`, so that no
/// path separator in it can lead out of the directory the name is joined to.
pub open spec fn confined(s: Seq<char>) -> Seq<char> {
    s.map_values(|c: char| if c == '/' { '_' } else { c })
}

/// Appends `s` as one file-name component (see `confined`) to `out`.
pub fn push_confined(out: &mut String, s: &str)
    ensures
        final(out)@ == old(out)@ + confined(s@),
        forall|j: int| old(out)@.len() <= j < final(out)@.len() ==> #[trigger] final(out)@[j] != '/',
{
    let cs = chars_of(s);
    let ghost start = out@;
    let mut i: usize = 0;
    proof {
        assert(start + confined(s@).take(0) =~= start);
    }
    while i < cs.len()
        invariant
            i <= cs@.len(),
            cs@ == s@,
            out@ == start + confined(s@).take(i as int),
            forall|j: int| start.len() <= j < out@.len() ==> #[trigger] out@[j] != '/',
        decreases cs@.len() - i,
    {
        let c = if cs[i] == '/' {
            '_'
        } else {
            cs[i]
        };
        push_char(out, c);
        proof {
            assert(confined(s@).take(i + 1) =~= confined(s@).take(i as int).push(c));
        }
        i = i + 1;
    }
    proof {
        assert(confined(s@).take(i as int) =~= confined(s@));
    }
}

/// A `String` holding exactly the given characters.
pub fn string_of(v: &[char]) -> (r: String)
    ensures
        r@ == v@,
{
    let mut r = String::new();
    let mut i: usize = 0;
    while i < v.len()
        invariant
            i <= v@.len(),
            r@ == v@.take(i as int),
        decreases v@.len() - i,
    {
        push_char(&mut r, v[i]);
        i = i + 1;
        proof {
            assert(r@ =~= v@.take(i as int));
        }
    }
    proof {
        assert(v@.take(i as int) =~= v@);
    }
    r
}


// ---------------------------------------------------------------------------
// Lines
// ---------------------------------------------------------------------------

/// Position of the first `'\n'` in `s`, or `s.len()` when there is none.
pub open spec fn nl_pos(s: Seq<char>) -> int
    decreases s.len(),
{
    if s.len() == 0 {
        0
    } else if s[0] == '\n' {
        0
    } else {
        1 + nl_pos(s.drop_first())
    }
}

/// `nl_pos` is the first line break, or the end.
pub proof fn lemma_nl_pos(s: Seq<char>)
    ensures
        0 <= nl_pos(s) <= s.len(),
        forall|j: int| 0 <= j < nl_pos(s) ==> s[j] != '\n',
        nl_pos(s) < s.len() ==> s[nl_pos(s)] == '\n',
    decreases s.len(),
{
    if s.len() > 0 && s[0] != '\n' {
        lemma_nl_pos(s.drop_first());
        assert forall|j: int| 0 <= j < nl_pos(s) implies s[j] != '\n' by {
            if j > 0 {
                assert(s[j] == s.drop_first()[j - 1]);
            }
        }
    }
}

/// A position with no line break before it and one at it (or the end) is
/// `nl_pos`.
pub proof fn lemma_nl_pos_is(s: Seq<char>, m: int)
    requires
        0 <= m <= s.len(),
        forall|j: int| 0 <= j < m ==> s[j] != '\n',
        m < s.len() ==> s[m] == '\n',
    ensures
        nl_pos(s) == m,
    decreases s.len(),
{
    if s.len() > 0 && s[0] != '\n' {
        assert forall|j: int| 0 <= j < m - 1 implies s.drop_first()[j] != '\n' by {
            assert(s.drop_first()[j] == s[j + 1]);
        }
        lemma_nl_pos_is(s.drop_first(), m - 1);
    }
}

/// Drops one `'\r'` at the end, if there is one.
pub open spec fn strip_cr(s: Seq<char>) -> Seq<char> {
    if s.len() > 0 && s.last() == '\r' {
        s.drop_last()
    } else {
        s
    }
}

/// The lines of `s` as `str::lines` yields them: split at each `'\n'`, a
/// `'\r'` right before a `'\n'` dropped, and no empty line after a final
/// `'\n'`.
pub open spec fn lines(s: Seq<char>) -> Seq<Seq<char>>
    decreases s.len(),
{
    if s.len() == 0 {
        seq![]
    } else {
        let i = nl_pos(s);
        if i >= s.len() || i < 0 {
            seq![s]
        } else {
            seq![strip_cr(s.take(i))] + lines(s.skip(i + 1))
        }
    }
}

/// A line without `'\n'`, then `'\n'`, then the rest: the line (less a final
/// `'\r'`) comes first, then the lines of the rest.
pub proof fn lemma_lines_cons(a: Seq<char>, b: Seq<char>)
    requires
        forall|j: int| 0 <= j < a.len() ==> #[trigger] a[j] != '\n',
    ensures
        lines(a + seq!['\n'] + b) == seq![strip_cr(a)] + lines(b),
{
    let s = a + seq!['\n'] + b;
    assert forall|j: int| 0 <= j < a.len() implies s[j] != '\n' by {
        assert(s[j] == a[j]);
    }
    lemma_nl_pos_is(s, a.len() as int);
    assert(s.take(a.len() as int) =~= a);
    assert(s.skip(a.len() as int + 1) =~= b);
}

/// The lines of text that ends in `'\n'` (or is empty), then of more text,
/// are the lines of the one then of the other.
pub proof fn lemma_lines_append(a: Seq<char>, b: Seq<char>)
    requires
        a.len() == 0 || a.last() == '\n',
    ensures
        lines(a + b) == lines(a) + lines(b),
    decreases a.len(),
{
    if a.len() == 0 {
        assert(a + b =~= b);
        assert(lines(a) + lines(b) =~= lines(b));
    } else {
        let s = a + b;
        lemma_nl_pos(a);
        let i = nl_pos(a);
        if i >= a.len() {
            assert(a[a.len() - 1] == '\n');
        }
        assert(i < a.len());
        assert forall|j: int| 0 <= j < i implies s[j] != '\n' by {
            assert(s[j] == a[j]);
        }
        assert(s[i] == a[i]);
        lemma_nl_pos_is(s, i);
        assert(s.take(i) =~= a.take(i));
        let a2 = a.skip(i + 1);
        assert(s.skip(i + 1) =~= a2 + b);
        if a2.len() > 0 {
            assert(a2.last() == a.last());
        }
        lemma_lines_append(a2, b);
        assert(lines(a) == seq![strip_cr(a.take(i))] + lines(a2));
        assert(lines(s) == seq![strip_cr(a.take(i))] + lines(a2 + b));
        assert(lines(s) =~= lines(a) + lines(b));
    }
}

/// No line of `s` holds a `'\n'`, nor a character that `s` lacks.
pub proof fn lemma_lines_lack(s: Seq<char>, c: char)
    requires
        forall|k: int| 0 <= k < s.len() ==> #[trigger] s[k] != c,
    ensures
        forall|i: int, j: int|
            0 <= i < lines(s).len() && 0 <= j < lines(s)[i].len() ==> #[trigger] lines(s)[i][j] != '\n'
                && lines(s)[i][j] != c,
    decreases s.len(),
{
    if s.len() > 0 {
        lemma_nl_pos(s);
        let i0 = nl_pos(s);
        if i0 >= s.len() {
            assert(lines(s) == seq![s]);
        } else {
            let rest = s.skip(i0 + 1);
            assert forall|k: int| 0 <= k < rest.len() implies #[trigger] rest[k] != c by {
                assert(rest[k] == s[k + i0 + 1]);
            }
            lemma_lines_lack(rest, c);
            let first = strip_cr(s.take(i0));
            assert forall|i: int, j: int|
                0 <= i < lines(s).len() && 0 <= j < lines(s)[i].len() implies #[trigger] lines(s)[i][j]
                    != '\n' && lines(s)[i][j] != c by {
                if i == 0 {
                    assert(lines(s)[0] == first);
                    assert(first[j] == s[j]);
                } else {
                    assert(lines(s)[i] == lines(rest)[i - 1]);
                }
            }
        }
    }
}

/// Text before `l` without the first character of `p`, and text after it
/// without the last one, add no occurrence of `p`.
pub proof fn lemma_contains_wrapped(a: Seq<char>, l: Seq<char>, b: Seq<char>, p: Seq<char>)
    requires
        p.len() > 0,
        forall|i: int| 0 <= i < a.len() ==> #[trigger] a[i] != p[0],
        forall|i: int| 0 <= i < b.len() ==> #[trigger] b[i] != p[p.len() - 1],
    ensures
        contains(a + l + b, p) == contains(l, p),
{
    let s = a + l + b;
    if contains(s, p) {
        let i = choose|i: int| match_at(s, p, i);
        assert(s.subrange(i, i + p.len())[0] == p[0]);
        assert(s[i] == p[0]);
        if i < a.len() {
            assert(s[i] == a[i]);
        }
        let e = i + p.len() - 1;
        assert(s.subrange(i, i + p.len())[p.len() - 1] == p[p.len() - 1]);
        assert(s[e] == p[p.len() - 1]);
        if e >= a.len() + l.len() {
            assert(s[e] == b[e - a.len() - l.len()]);
        }
        let i2 = i - a.len();
        assert(l.subrange(i2, i2 + p.len()) =~= s.subrange(i, i + p.len()));
        assert(match_at(l, p, i2));
    }
    if contains(l, p) {
        let i = choose|i: int| match_at(l, p, i);
        assert(s.subrange(i + a.len(), i + a.len() + p.len()) =~= l.subrange(i, i + p.len()));
        assert(match_at(s, p, i + a.len()));
    }
}

/// An occurrence in part of a text is an occurrence in the text.
pub proof fn lemma_contains_sub(s: Seq<char>, a: int, b: int, p: Seq<char>)
    requires
        0 <= a <= b <= s.len(),
        contains(s.subrange(a, b), p),
    ensures
        contains(s, p),
{
    let t = s.subrange(a, b);
    let i = choose|i: int| match_at(t, p, i);
    assert(s.subrange(a + i, a + i + p.len()) =~= t.subrange(i, i + p.len()));
    assert(match_at(s, p, a + i));
}

proof fn lemma_trim_start_contains(s: Seq<char>, p: Seq<char>)
    ensures
        contains(trim_start(s), p) ==> contains(s, p),
    decreases s.len(),
{
    if s.len() > 0 && is_ws(s[0]) {
        lemma_trim_start_contains(s.drop_first(), p);
        if contains(s.drop_first(), p) {
            lemma_contains_sub(s, 1, s.len() as int, p);
        }
    }
}

proof fn lemma_trim_end_contains(s: Seq<char>, p: Seq<char>)
    ensures
        contains(trim_end(s), p) ==> contains(s, p),
    decreases s.len(),
{
    if s.len() > 0 && is_ws(s.last()) {
        lemma_trim_end_contains(s.drop_last(), p);
        if contains(s.drop_last(), p) {
            lemma_contains_sub(s, 0, s.len() - 1, p);
        }
    }
}

/// An occurrence in a trimmed text is one in the text.
pub proof fn lemma_trim_contains(s: Seq<char>, p: Seq<char>)
    ensures
        contains(trim(s), p) ==> contains(s, p),
{
    lemma_trim_start_contains(s, p);
    lemma_trim_end_contains(trim_start(s), p);
}

/// An occurrence in a line of a text is one in the text.
pub proof fn lemma_lines_contains(s: Seq<char>, p: Seq<char>)
    ensures
        forall|i: int| 0 <= i < lines(s).len() && contains(#[trigger] lines(s)[i], p) ==> contains(s, p),
    decreases s.len(),
{
    if s.len() > 0 {
        lemma_nl_pos(s);
        let i0 = nl_pos(s);
        if i0 < s.len() {
            let rest = s.skip(i0 + 1);
            lemma_lines_contains(rest, p);
            let first = strip_cr(s.take(i0));
            assert forall|i: int| 0 <= i < lines(s).len() && contains(#[trigger] lines(s)[i], p) implies contains(
                s,
                p,
            ) by {
                if i == 0 {
                    assert(lines(s)[0] == first);
                    assert(first =~= s.subrange(0, first.len() as int));
                    lemma_contains_sub(s, 0, first.len() as int, p);
                } else {
                    assert(lines(s)[i] == lines(rest)[i - 1]);
                    assert(rest =~= s.subrange(i0 + 1, s.len() as int));
                    lemma_contains_sub(s, i0 + 1, s.len() as int, p);
                }
            }
        }
    }
}

/// The lines of `s`, each as its characters.
pub fn split_lines(s: &[char]) -> (r: Vec<Vec<char>>)
    ensures
        r.deep_view() == lines(s@),
{
    let mut r: Vec<Vec<char>> = Vec::new();
    let n = s.len();
    let mut pos: usize = 0;
    proof {
        assert(r.deep_view() =~= Seq::<Seq<char>>::empty());
        assert(s@.skip(0) =~= s@);
        assert(Seq::<Seq<char>>::empty() + lines(s@) =~= lines(s@));
    }
    while pos < n
        invariant
            n == s@.len(),
            pos <= n,
            lines(s@) == r.deep_view() + lines(s@.skip(pos as int)),
        decreases n - pos,
    {
        let mut j = pos;
        while j < n && s[j] != '\n'
            invariant
                pos <= j <= n,
                n == s@.len(),
                forall|k: int| pos <= k < j ==> s@[k] != '\n',
            decreases n - j,
        {
            j = j + 1;
        }
        let ghost t = s@.skip(pos as int);
        proof {
            lemma_nl_pos_is(t, j - pos);
        }
        let mut line: Vec<char> = Vec::new();
        let mut end = j;
        if j < n && end > pos && s[end - 1] == '\r' {
            end = end - 1;
        }
        let mut k = pos;
        while k < end
            invariant
                pos <= k <= end <= j <= n,
                n == s@.len(),
                line@ == s@.subrange(pos as int, k as int),
            decreases end - k,
        {
            line.push(s[k]);
            k = k + 1;
            proof {
                assert(line@ =~= s@.subrange(pos as int, k as int));
            }
        }
        let ghost old_r = r.deep_view();
        proof {
            assert(line.deep_view() =~= line@);
        }
        r.push(line);
        if j < n {
            proof {
                assert(t.take(j - pos) =~= s@.subrange(pos as int, j as int));
                assert(strip_cr(t.take(j - pos)) =~= s@.subrange(pos as int, end as int));
                assert(t.skip(j - pos + 1) =~= s@.skip(j + 1));
                assert(r.deep_view() =~= old_r.push(s@.subrange(pos as int, end as int)));
                assert(lines(t) == seq![strip_cr(t.take(j - pos))] + lines(t.skip(j - pos + 1)));
                assert(lines(s@) =~= r.deep_view() + lines(s@.skip(j + 1)));
            }
            pos = j + 1;
        } else {
            proof {
                assert(t =~= s@.subrange(pos as int, end as int));
                assert(r.deep_view() =~= old_r.push(t));
                assert(lines(t) == seq![t]);
                assert(s@.skip(n as int) =~= Seq::<char>::empty());
                assert(lines(s@) =~= r.deep_view() + lines(s@.skip(n as int)));
            }
            pos = n;
        }
    }
    proof {
        assert(s@.skip(n as int) =~= Seq::<char>::empty());
        assert(r.deep_view() + lines(Seq::<char>::empty()) =~= r.deep_view());
    }
    r
}


// ---------------------------------------------------------------------------
// Trimming
// ---------------------------------------------------------------------------

/// `str::trim_start`: leading white space removed.
pub open spec fn trim_start(s: Seq<char>) -> Seq<char>
    decreases s.len(),
{
    if s.len() > 0 && is_ws(s[0]) {
        trim_start(s.drop_first())
    } else {
        s
    }
}

/// `str::trim_end`: trailing white space removed.
pub open spec fn trim_end(s: Seq<char>) -> Seq<char>
    decreases s.len(),
{
    if s.len() > 0 && is_ws(s.last()) {
        trim_end(s.drop_last())
    } else {
        s
    }
}

/// `str::trim`: leading and trailing Unicode white space removed.
pub open spec fn trim(s: Seq<char>) -> Seq<char> {
    trim_end(trim_start(s))
}

/// A string is blank when it is nothing but white space.
pub open spec fn is_blank(s: Seq<char>) -> bool {
    trim(s).len() == 0
}

/// Where the white space before `a` ends, `trim_start` starts.
pub proof fn lemma_trim_start_is(s: Seq<char>, a: int)
    requires
        0 <= a <= s.len(),
        forall|k: int| 0 <= k < a ==> is_ws(#[trigger] s[k]),
        a < s.len() ==> !is_ws(s[a]),
    ensures
        trim_start(s) == s.skip(a),
    decreases s.len(),
{
    if a > 0 {
        assert forall|k: int| 0 <= k < a - 1 implies is_ws(#[trigger] s.drop_first()[k]) by {
            assert(s.drop_first()[k] == s[k + 1]);
        }
        lemma_trim_start_is(s.drop_first(), a - 1);
        assert(s.drop_first().skip(a - 1) =~= s.skip(a));
    } else {
        assert(s.skip(0) =~= s);
    }
}

/// Where the white space after `b` starts, `trim_end` ends.
pub proof fn lemma_trim_end_is(s: Seq<char>, b: int)
    requires
        0 <= b <= s.len(),
        forall|k: int| b <= k < s.len() ==> is_ws(#[trigger] s[k]),
        b > 0 ==> !is_ws(s[b - 1]),
    ensures
        trim_end(s) == s.take(b),
    decreases s.len(),
{
    if b < s.len() {
        assert forall|k: int| b <= k < s.len() - 1 implies is_ws(#[trigger] s.drop_last()[k]) by {
            assert(s.drop_last()[k] == s[k]);
        }
        lemma_trim_end_is(s.drop_last(), b);
        assert(s.drop_last().take(b) =~= s.take(b));
    } else {
        assert(s.take(b) =~= s);
    }
}

proof fn lemma_trim_start_len(s: Seq<char>)
    ensures
        trim_start(s).len() <= s.len(),
    decreases s.len(),
{
    if s.len() > 0 {
        lemma_trim_start_len(s.drop_first());
    }
}

proof fn lemma_trim_end_len(s: Seq<char>)
    ensures
        trim_end(s).len() <= s.len(),
    decreases s.len(),
{
    if s.len() > 0 {
        lemma_trim_end_len(s.drop_last());
    }
}

/// Trimming never makes a string longer.
pub proof fn lemma_trim_len(s: Seq<char>)
    ensures
        trim(s).len() <= s.len(),
{
    lemma_trim_start_len(s);
    lemma_trim_end_len(trim_start(s));
}

/// Bounds of `trim(s[lo..hi])` within `s`.
pub fn trim_range(s: &[char], lo: usize, hi: usize) -> (r: (usize, usize))
    requires
        lo <= hi <= s@.len(),
    ensures
        lo <= r.0 <= r.1 <= hi,
        trim(s@.subrange(lo as int, hi as int)) == s@.subrange(r.0 as int, r.1 as int),
        r.0 < r.1 ==> !is_ws(s@[r.0 as int]) && !is_ws(s@[r.1 - 1]),
{
    let ghost t = s@.subrange(lo as int, hi as int);
    let mut a = lo;
    while a < hi && is_whitespace(s[a])
        invariant
            lo <= a <= hi <= s@.len(),
            forall|k: int| lo <= k < a ==> is_ws(#[trigger] s@[k]),
        decreases hi - a,
    {
        a = a + 1;
    }
    proof {
        assert forall|k: int| 0 <= k < a - lo implies is_ws(#[trigger] t[k]) by {
            assert(t[k] == s@[lo + k]);
        }
        lemma_trim_start_is(t, a - lo);
        assert(t.skip(a - lo) =~= s@.subrange(a as int, hi as int));
    }
    let ghost u = s@.subrange(a as int, hi as int);
    let mut b = hi;
    while b > a && is_whitespace(s[b - 1])
        invariant
            lo <= a <= b <= hi <= s@.len(),
            forall|k: int| b <= k < hi ==> is_ws(#[trigger] s@[k]),
        decreases b - a,
    {
        b = b - 1;
    }
    proof {
        assert forall|k: int| b - a <= k < u.len() implies is_ws(#[trigger] u[k]) by {
            assert(u[k] == s@[a + k]);
        }
        lemma_trim_end_is(u, b - a);
        assert(u.take(b - a) =~= s@.subrange(a as int, b as int));
    }
    (a, b)
}

/// The characters of `trim(s)`.
pub fn trimmed(s: &[char]) -> (r: Vec<char>)
    ensures
        r@ == trim(s@),
{
    let (a, b) = trim_range(s, 0, s.len());
    proof {
        assert(s@.subrange(0, s@.len() as int) =~= s@);
    }
    slice_range(s, a, b)
}

/// A copy of `s[lo..hi]`.
pub fn slice_range(s: &[char], lo: usize, hi: usize) -> (r: Vec<char>)
    requires
        lo <= hi <= s@.len(),
    ensures
        r@ == s@.subrange(lo as int, hi as int),
{
    let mut r: Vec<char> = Vec::new();
    let mut k = lo;
    while k < hi
        invariant
            lo <= k <= hi <= s@.len(),
            r@ == s@.subrange(lo as int, k as int),
        decreases hi - k,
    {
        r.push(s[k]);
        k = k + 1;
        proof {
            assert(r@ =~= s@.subrange(lo as int, k as int));
        }
    }
    r
}

/// Appends `s[lo..hi]` to `out`.
pub fn append_range(out: &mut Vec<char>, s: &[char], lo: usize, hi: usize)
    requires
        lo <= hi <= s@.len(),
    ensures
        final(out)@ == old(out)@ + s@.subrange(lo as int, hi as int),
{
    let ghost before = out@;
    let mut k = lo;
    while k < hi
        invariant
            lo <= k <= hi <= s@.len(),
            out@ == before + s@.subrange(lo as int, k as int),
        decreases hi - k,
    {
        out.push(s[k]);
        k = k + 1;
        proof {
            assert(out@ =~= before + s@.subrange(lo as int, k as int));
        }
    }
}

/// Whether `s` is all white space.
pub fn blank(s: &[char]) -> (r: bool)
    ensures
        r == is_blank(s@),
{
    let (a, b) = trim_range(s, 0, s.len());
    proof {
        assert(s@.subrange(0, s@.len() as int) =~= s@);
    }
    a == b
}

// ---------------------------------------------------------------------------
// Matching
// ---------------------------------------------------------------------------

/// `p` occurs in `s` at position `i`.
pub open spec fn match_at(s: Seq<char>, p: Seq<char>, i: int) -> bool {
    0 <= i && i + p.len() <= s.len() && s.subrange(i, i + p.len()) == p
}

/// `p` opens `s`.
pub open spec fn starts_with(s: Seq<char>, p: Seq<char>) -> bool {
    match_at(s, p, 0)
}

/// `p` occurs somewhere in `s`.
pub open spec fn contains(s: Seq<char>, p: Seq<char>) -> bool {
    exists|i: int| match_at(s, p, i)
}

/// Leftmost occurrence of `p` in `s` at or after `i`.
pub open spec fn find_from(s: Seq<char>, p: Seq<char>, i: int) -> Option<int>
    decreases s.len() + 1 - i,
{
    if i < 0 || i + p.len() > s.len() {
        None
    } else if match_at(s, p, i) {
        Some(i)
    } else {
        find_from(s, p, i + 1)
    }
}

/// `str::find`: the leftmost occurrence of `p` in `s`.
pub open spec fn find(s: Seq<char>, p: Seq<char>) -> Option<int> {
    find_from(s, p, 0)
}

/// `find_from` gives the leftmost occurrence at or after `i`, and none only
/// when there is none.
pub proof fn lemma_find_from(s: Seq<char>, p: Seq<char>, i: int)
    requires
        0 <= i,
    ensures
        find_from(s, p, i) matches Some(k) ==> i <= k && match_at(s, p, k) && forall|j: int|
            i <= j < k ==> !match_at(s, p, j),
        find_from(s, p, i) is None ==> forall|j: int| i <= j ==> !match_at(s, p, j),
    decreases s.len() + 1 - i,
{
    if i + p.len() <= s.len() && !match_at(s, p, i) {
        lemma_find_from(s, p, i + 1);
    }
}

/// `find` gives the leftmost occurrence, and none only when there is none.
pub proof fn lemma_find(s: Seq<char>, p: Seq<char>)
    ensures
        find(s, p) matches Some(k) ==> match_at(s, p, k) && forall|j: int|
            0 <= j < k ==> !match_at(s, p, j),
        find(s, p) is None <==> !contains(s, p),
{
    lemma_find_from(s, p, 0);
}

/// Searching from `pos + j` is searching the text after `pos` from `j`.
pub proof fn lemma_find_from_skip(s: Seq<char>, p: Seq<char>, pos: int, j: int)
    requires
        0 <= pos <= s.len(),
        0 <= j,
    ensures
        find_from(s, p, pos + j) == (match find_from(s.skip(pos), p, j) {
            Some(k) => Some(k + pos),
            None => None,
        }),
    decreases s.len() + 1 - (pos + j),
{
    if pos + j + p.len() <= s.len() {
        assert(s.subrange(pos + j, pos + j + p.len()) =~= s.skip(pos).subrange(j, j + p.len()));
        if !match_at(s, p, pos + j) {
            lemma_find_from_skip(s, p, pos, j + 1);
        }
    }
}

/// Whether `p` occurs in `s` at `i`.
pub fn matches_at(s: &[char], p: &[char], i: usize) -> (r: bool)
    ensures
        r == match_at(s@, p@, i as int),
{
    if i > s.len() || p.len() > s.len() - i {
        return false;
    }
    let mut k: usize = 0;
    while k < p.len()
        invariant
            i + p@.len() <= s@.len(),
            s@.len() == s.len(),
            k <= p@.len(),
            forall|j: int| 0 <= j < k ==> s@[i + j] == p@[j],
        decreases p@.len() - k,
    {
        if s[i + k] != p[k] {
            proof {
                assert(s@.subrange(i as int, i + p@.len())[k as int] != p@[k as int]);
            }
            return false;
        }
        k = k + 1;
    }
    proof {
        assert(s@.subrange(i as int, i + p@.len()) =~= p@);
    }
    true
}

/// Leftmost occurrence of `p` in `s` at or after `from`.
pub fn find_chars(s: &[char], p: &[char], from: usize) -> (r: Option<usize>)
    ensures
        match r {
            Some(k) => find_from(s@, p@, from as int) == Some(k as int),
            None => find_from(s@, p@, from as int) is None,
        },
{
    if from > s.len() {
        return None;
    }
    let mut i = from;
    while p.len() <= s.len() - i
        invariant
            from <= i <= s@.len(),
            find_from(s@, p@, from as int) == find_from(s@, p@, i as int),
        decreases s@.len() + 1 - i,
    {
        if matches_at(s, p, i) {
            return Some(i);
        }
        if i == s.len() {
            proof {
                assert(find_from(s@, p@, i as int) == find_from(s@, p@, i + 1));
            }
            return None;
        }
        i = i + 1;
    }
    None
}

/// Whether `p` occurs anywhere in `s`.
pub fn contains_chars(s: &[char], p: &[char]) -> (r: bool)
    ensures
        r == contains(s@, p@),
{
    proof {
        lemma_find(s@, p@);
    }
    find_chars(s, p, 0).is_some()
}


// ---------------------------------------------------------------------------
// Conversions that std performs
// ---------------------------------------------------------------------------

/// What `String::from_utf8_lossy` makes of a byte string.
pub uninterp spec fn utf8_lossy(b: Seq<u8>) -> Seq<char>;

/// `String::from_utf8_lossy`: the bytes decoded as UTF-8, with every invalid
/// sequence replaced by U+FFFD. The replacement rules are not restated here:
/// the result is named, and of it the contract only adds that valid UTF-8 is
/// decoded as it is.
#[verifier::external_body]
pub(crate) fn from_utf8_lossy(b: &[u8]) -> (r: String)
    ensures
        r@ == utf8_lossy(b@),
        valid_utf8(b@) ==> r@ == decode_utf8(b@),
{
    String::from_utf8_lossy(b).into_owned()
}

/// What `str::to_lowercase` makes of a string.
pub uninterp spec fn lowercase(s: Seq<char>) -> Seq<char>;

/// `str::to_lowercase`: the Unicode lowercase mapping of the whole string.
/// The mapping (its tables and context rules) is not restated: the result is
/// named.
#[verifier::external_body]
pub(crate) fn to_lowercase(s: &str) -> (r: String)
    ensures
        r@ == lowercase(s@),
{
    s.to_lowercase()
}

/// A `String` from literal text (`str::to_owned`).
pub fn owned(s: &str) -> (r: String)
    ensures
        r@ == s@,
{
    s.to_owned()
}


// ---------------------------------------------------------------------------
// Decimal numbers
// ---------------------------------------------------------------------------

/// The character of a decimal digit.
pub open spec fn digit_char(d: nat) -> char
    recommends
        d < 10,
{
    ((d + '0' as nat) as u32) as char
}

/// The decimal digits of `n`, as `Display` writes an unsigned integer.
pub open spec fn decimal(n: nat) -> Seq<char>
    decreases n,
{
    if n < 10 {
        seq![digit_char(n)]
    } else {
        decimal(n / 10).push(digit_char(n % 10))
    }
}

fn push_decimal(out: &mut Vec<char>, n: u64)
    ensures
        final(out)@ == old(out)@ + decimal(n as nat),
    decreases n,
{
    if n >= 10 {
        push_decimal(out, n / 10);
    }
    let d = (n % 10) as u32 + ('0' as u32);
    let c = char_from_digit(d);
    out.push(c);
    proof {
        if n >= 10 {
            assert(decimal(n as nat) == decimal((n / 10) as nat).push(digit_char((n % 10) as nat)));
        }
    }
}

fn char_from_digit(d: u32) -> (c: char)
    requires
        '0' as u32 <= d <= '9' as u32,
    ensures
        c == d as char,
{
    d as u8 as char
}

/// `n.to_string()` for an unsigned integer.
pub fn decimal_string(n: u64) -> (r: String)
    ensures
        r@ == decimal(n as nat),
{
    let mut v: Vec<char> = Vec::new();
    push_decimal(&mut v, n);
    proof {
        assert(Seq::<char>::empty() + decimal(n as nat) =~= decimal(n as nat));
    }
    string_of(&v)
}

/// An ASCII decimal digit.
pub open spec fn is_dec_digit(c: char) -> bool {
    '0' <= c && c <= '9'
}

/// The number a string of decimal digits stands for.
pub open spec fn dec_value(d: Seq<char>) -> nat
    decreases d.len(),
{
    if d.len() == 0 {
        0
    } else {
        dec_value(d.drop_last()) * 10 + (d.last() as int - '0' as int) as nat
    }
}

/// Every character is a decimal digit.
pub open spec fn all_dec(d: Seq<char>) -> bool {
    forall|i: int| 0 <= i < d.len() ==> is_dec_digit(#[trigger] d[i])
}

/// What `str::parse::<usize>` accepts: an optional `+` followed by at least
/// one decimal digit, the value fitting in `usize`.
pub open spec fn parse_usize(s: Seq<char>) -> Option<usize> {
    let d = if s.len() >= 2 && s[0] == '+' {
        s.drop_first()
    } else {
        s
    };
    if d.len() == 0 || !all_dec(d) || dec_value(d) > usize::MAX {
        None
    } else {
        Some(dec_value(d) as usize)
    }
}

/// A prefix of a decimal number is worth no more than the number.
pub proof fn lemma_dec_value_prefix(d: Seq<char>, j: int)
    requires
        0 <= j <= d.len(),
    ensures
        dec_value(d.take(j)) <= dec_value(d),
    decreases d.len(),
{
    if j < d.len() {
        lemma_dec_value_prefix(d.drop_last(), j);
        assert(d.drop_last().take(j) =~= d.take(j));
    } else {
        assert(d.take(j) =~= d);
    }
}

proof fn lemma_digit_char(d: nat)
    requires
        d < 10,
    ensures
        is_dec_digit(digit_char(d)),
        (digit_char(d) as int - '0' as int) == d,
{
}

/// The decimal digits of `n` read back as `n`.
pub proof fn lemma_decimal(n: nat)
    ensures
        decimal(n).len() >= 1,
        all_dec(decimal(n)),
        dec_value(decimal(n)) == n,
    decreases n,
{
    let d = decimal(n);
    if n < 10 {
        lemma_digit_char(n);
        assert(d.drop_last() =~= Seq::<char>::empty());
        assert(dec_value(Seq::<char>::empty()) == 0);
        assert(dec_value(d) == dec_value(d.drop_last()) * 10 + (d.last() as int - '0' as int) as nat);
    } else {
        lemma_decimal(n / 10);
        lemma_digit_char(n % 10);
        assert(d.drop_last() =~= decimal(n / 10));
        assert(d.last() == digit_char(n % 10));
        assert(dec_value(d) == dec_value(d.drop_last()) * 10 + (d.last() as int - '0' as int) as nat);
        assert(n == (n / 10) * 10 + n % 10);
        assert forall|i: int| 0 <= i < d.len() implies is_dec_digit(#[trigger] d[i]) by {
            if i < d.len() - 1 {
                assert(d[i] == decimal(n / 10)[i]);
            }
        }
    }
}

/// `n.to_string().parse::<usize>()` gives `n` back.
pub proof fn lemma_parse_decimal(n: nat)
    requires
        n <= usize::MAX,
    ensures
        parse_usize(decimal(n)) == Some(n as usize),
{
    lemma_decimal(n);
    assert(is_dec_digit(decimal(n)[0]));
}

/// `s[lo..hi].parse::<usize>()`, with `None` for every error.
pub fn parse_usize_range(s: &[char], lo: usize, hi: usize) -> (r: Option<usize>)
    requires
        lo <= hi <= s@.len(),
    ensures
        r == parse_usize(s@.subrange(lo as int, hi as int)),
{
    let ghost t = s@.subrange(lo as int, hi as int);
    let start = if hi - lo >= 2 && s[lo] == '+' {
        lo + 1
    } else {
        lo
    };
    let ghost d = s@.subrange(start as int, hi as int);
    proof {
        if hi - lo >= 2 && s@[lo as int] == '+' {
            assert(t[0] == s@[lo as int]);
            assert(t.drop_first() =~= d);
        } else {
            assert(t =~= d);
        }
    }
    if start == hi {
        return None;
    }
    let mut acc: usize = 0;
    let mut i = start;
    proof {
        assert(d.take(0) =~= Seq::<char>::empty());
    }
    while i < hi
        invariant
            lo <= start <= i <= hi <= s@.len(),
            t == s@.subrange(lo as int, hi as int),
            d == s@.subrange(start as int, hi as int),
            d.len() > 0,
            d == (if t.len() >= 2 && t[0] == '+' {
                t.drop_first()
            } else {
                t
            }),
            forall|k: int| 0 <= k < i - start ==> is_dec_digit(#[trigger] d[k]),
            acc == dec_value(d.take(i - start)),
        decreases hi - i,
    {
        let c = s[i];
        proof {
            assert(d[i - start] == s@[i as int]);
        }
        if !('0' <= c && c <= '9') {
            proof {
                assert(!is_dec_digit(d[i - start]));
            }
            return None;
        }
        let v = (c as u32) - ('0' as u32);
        let next: u128 = (acc as u128) * 10 + (v as u128);
        proof {
            assert(d.take(i - start + 1).drop_last() =~= d.take(i - start));
            assert(d.take(i - start + 1).last() == d[i - start]);
            assert(dec_value(d.take(i - start + 1)) == next);
        }
        if next > usize::MAX as u128 {
            proof {
                lemma_dec_value_prefix(d, i - start + 1);
            }
            return None;
        }
        acc = next as usize;
        i = i + 1;
    }
    proof {
        assert(d.take(i - start) =~= d);
    }
    Some(acc)
}

/// Whether two strings hold the same characters.
pub fn same_chars(a: &[char], b: &[char]) -> (r: bool)
    ensures
        r == (a@ == b@),
{
    if a.len() != b.len() {
        return false;
    }
    let r = matches_at(a, b, 0);
    proof {
        assert(a@.subrange(0, b@.len() as int) =~= a@);
    }
    r
}

/// Whether two string slices hold the same text.
pub fn same_text(a: &str, b: &str) -> (r: bool)
    ensures
        r == (a@ == b@),
{
    same_chars(&chars_of(a), &chars_of(b))
}

} // verus!
