//! Line and word splitting over character sequences, stated as spec functions
//! and carried out over positions in a character vector.
use vstd::prelude::*;

verus! {

/// The Unicode `White_Space` property, the set that `char::is_whitespace` tests.
pub open spec fn white_space_spec(c: char) -> bool {
    let u = c as u32;
    ||| 0x09 <= u <= 0x0D
    ||| u == 0x20
    ||| u == 0x85
    ||| u == 0xA0
    ||| u == 0x1680
    ||| 0x2000 <= u <= 0x200A
    ||| u == 0x2028
    ||| u == 0x2029
    ||| u == 0x202F
    ||| u == 0x205F
    ||| u == 0x3000
}

/// Number of leading characters before the first line feed (or the whole length).
pub open spec fn line_run(t: Seq<char>) -> nat
    decreases t.len(),
{
    if t.len() == 0 || t[0] == '\n' {
        0
    } else {
        1 + line_run(t.drop_first())
    }
}

/// Number of leading characters before the first white space (or the whole length).
pub open spec fn word_run(t: Seq<char>) -> nat
    decreases t.len(),
{
    if t.len() == 0 || white_space_spec(t[0]) {
        0
    } else {
        1 + word_run(t.drop_first())
    }
}

/// A line without the carriage return that ends a `\r\n` line ending.
pub open spec fn strip_cr(l: Seq<char>) -> Seq<char> {
    if l.len() > 0 && l.last() == '\r' {
        l.drop_last()
    } else {
        l
    }
}

/// The lines of a text: split at `\n` or `\r\n`; the last line ending is optional.
pub open spec fn text_lines(t: Seq<char>) -> Seq<Seq<char>>
    decreases t.len(),
{
    if t.len() == 0 {
        seq![]
    } else {
        let k = line_run(t) as int;
        if k >= t.len() {
            seq![t]
        } else {
            seq![strip_cr(t.take(k))] + text_lines(t.skip(k + 1))
        }
    }
}

/// The maximal runs of non-white-space characters of a line, in order.
pub open spec fn words(l: Seq<char>) -> Seq<Seq<char>>
    decreases l.len(),
{
    if l.len() == 0 {
        seq![]
    } else if white_space_spec(l[0]) {
        words(l.drop_first())
    } else {
        let k = 1 + word_run(l.drop_first()) as int;
        if k >= l.len() {
            seq![l]
        } else {
            seq![l.take(k)] + words(l.skip(k))
        }
    }
}

/// Words joined with single spaces.
pub open spec fn join_words(ws: Seq<Seq<char>>) -> Seq<char>
    decreases ws.len(),
{
    if ws.len() == 0 {
        seq![]
    } else if ws.len() == 1 {
        ws[0]
    } else {
        join_words(ws.drop_last()) + seq![' '] + ws.last()
    }
}

/// `p` is a prefix of `w`.
pub open spec fn has_prefix(w: Seq<char>, p: Seq<char>) -> bool {
    p.len() <= w.len() && w.take(p.len() as int) == p
}

/// `p` occurs somewhere in `w`.
pub open spec fn contains_seq(w: Seq<char>, p: Seq<char>) -> bool {
    exists|i: int| 0 <= i && i + p.len() <= w.len() && #[trigger] w.subrange(i, i + p.len()) == p
}

/// The texts of a list of spans `[start, end)` of `t`.
pub open spec fn span_texts(t: Seq<char>, spans: Seq<(usize, usize)>) -> Seq<Seq<char>> {
    spans.map_values(|p: (usize, usize)| t.subrange(p.0 as int, p.1 as int))
}

pub proof fn lemma_line_run(t: Seq<char>, k: int)
    requires
        0 <= k <= t.len(),
        forall|i: int| 0 <= i < k ==> t[i] != '\n',
        k == t.len() || t[k] == '\n',
    ensures
        line_run(t) == k,
    decreases k,
{
    if k > 0 {
        lemma_line_run(t.drop_first(), k - 1);
    }
}

pub proof fn lemma_word_run(t: Seq<char>, k: int)
    requires
        0 <= k <= t.len(),
        forall|i: int| 0 <= i < k ==> !white_space_spec(#[trigger] t[i]),
        k == t.len() || white_space_spec(t[k]),
    ensures
        word_run(t) == k,
    decreases k,
{
    if k > 0 {
        lemma_word_run(t.drop_first(), k - 1);
    }
}

/// Tests a character for the Unicode `White_Space` property.
pub fn is_white_space(c: char) -> (r: bool)
    ensures
        r == white_space_spec(c),
{
    let u = c as u32;
    (0x09 <= u && u <= 0x0D) || u == 0x20 || u == 0x85 || u == 0xA0 || u == 0x1680 || (0x2000
        <= u && u <= 0x200A) || u == 0x2028 || u == 0x2029 || u == 0x202F || u == 0x205F || u
        == 0x3000
}

/// The characters of a string, one per element.
pub fn chars_of(s: &str) -> (r: Vec<char>)
    ensures
        r@ == s@,
{
    let n = s.unicode_len();
    let mut out: Vec<char> = Vec::new();
    let mut i: usize = 0;
    while i < n
        invariant
            n == s@.len(),
            i <= n,
            out@ == s@.take(i as int),
        decreases n - i,
    {
        out.push(s.get_char(i));
        i = i + 1;
        assert(out@ =~= s@.take(i as int));
    }
    assert(out@ =~= s@);
    out
}

/// The line that starts at `start`: returns where its text starts and ends
/// (line ending excluded) and where the next line starts.
pub fn next_line(cs: &Vec<char>, start: usize) -> (r: (usize, usize))
    requires
        start < cs@.len(),
    ensures
        start <= r.0 <= r.1 <= cs@.len(),
        start < r.1,
        text_lines(cs@.skip(start as int)) == seq![cs@.subrange(start as int, r.0 as int)]
            + text_lines(cs@.skip(r.1 as int)),
{
    let ghost t = cs@;
    let n = cs.len();
    let mut k: usize = start;
    while k < n && cs[k] != '\n'
        invariant
            t == cs@,
            n == t.len(),
            start <= k <= n,
            forall|i: int| start <= i < k ==> t[i] != '\n',
        decreases n - k,
    {
        k = k + 1;
    }
    let ghost u = t.skip(start as int);
    proof {
        lemma_line_run(u, k - start);
    }
    if k == n {
        assert(t.skip(n as int) =~= Seq::<char>::empty());
        assert(u =~= t.subrange(start as int, n as int));
        (n, n)
    } else {
        assert(u.skip(k - start + 1) =~= t.skip(k + 1));
        let e = if k > start && cs[k - 1] == '\r' {
            k - 1
        } else {
            k
        };
        assert(strip_cr(u.take(k - start)) =~= t.subrange(start as int, e as int));
        (e, k + 1)
    }
}

/// The words of `cs[start..end]`, as spans of `cs`.
pub fn word_spans(cs: &Vec<char>, start: usize, end: usize) -> (r: Vec<(usize, usize)>)
    requires
        start <= end <= cs@.len(),
    ensures
        span_texts(cs@, r@) == words(cs@.subrange(start as int, end as int)),
        forall|k: int| 0 <= k < r@.len() ==> start <= (#[trigger] r@[k]).0 < r@[k].1 <= end,
{
    let ghost t = cs@;
    let ghost all = words(t.subrange(start as int, end as int));
    let mut out: Vec<(usize, usize)> = Vec::new();
    let mut i: usize = start;
    while i < end
        invariant
            t == cs@,
            start <= i <= end <= t.len(),
            all == words(t.subrange(start as int, end as int)),
            span_texts(t, out@) + words(t.subrange(i as int, end as int)) == all,
            forall|k: int| 0 <= k < out@.len() ==> start <= (#[trigger] out@[k]).0 < out@[k].1 <= i,
        decreases end - i,
    {
        let ghost u = t.subrange(i as int, end as int);
        if is_white_space(cs[i]) {
            assert(u.drop_first() =~= t.subrange(i + 1, end as int));
            i = i + 1;
        } else {
            let mut j: usize = i + 1;
            while j < end && !is_white_space(cs[j])
                invariant
                    t == cs@,
                    i < j <= end <= t.len(),
                    forall|m: int| i < m < j ==> !white_space_spec(#[trigger] t[m]),
                decreases end - j,
            {
                j = j + 1;
            }
            proof {
                let v = u.drop_first();
                assert forall|m: int| 0 <= m < j - i - 1 implies !white_space_spec(#[trigger] v[m]) by {
                    assert(v[m] == t[i + 1 + m]);
                }
                lemma_word_run(v, j - i - 1);
            }
            let ghost before = span_texts(t, out@);
            out.push((i, j));
            proof {
                assert(span_texts(t, out@) =~= before + seq![t.subrange(i as int, j as int)]);
                if j == end {
                    assert(u =~= t.subrange(i as int, j as int));
                    assert(t.subrange(j as int, end as int) =~= Seq::<char>::empty());
                } else {
                    assert(u.take(j - i) =~= t.subrange(i as int, j as int));
                    assert(u.skip(j - i) =~= t.subrange(j as int, end as int));
                }
            }
            i = j;
        }
    }
    assert(t.subrange(end as int, end as int) =~= Seq::<char>::empty());
    assert(span_texts(t, out@) =~= all);
    out
}

/// Whether the span `cs[start..end]` begins with `p`.
pub fn span_has_prefix(cs: &Vec<char>, start: usize, end: usize, p: &str) -> (r: bool)
    requires
        start <= end <= cs@.len(),
    ensures
        r == has_prefix(cs@.subrange(start as int, end as int), p@),
{
    let ghost w = cs@.subrange(start as int, end as int);
    let n = p.unicode_len();
    if n > end - start {
        return false;
    }
    let mut i: usize = 0;
    while i < n
        invariant
            n == p@.len(),
            n <= end - start,
            start <= end <= cs@.len(),
            w == cs@.subrange(start as int, end as int),
            i <= n,
            forall|m: int| 0 <= m < i ==> w[m] == p@[m],
        decreases n - i,
    {
        if cs[start + i] != p.get_char(i) {
            assert(w.take(n as int)[i as int] != p@[i as int]);
            return false;
        }
        i = i + 1;
    }
    assert(w.take(n as int) =~= p@);
    true
}

/// Whether two strings hold the same characters.
pub fn same_text(a: &str, b: &str) -> (r: bool)
    ensures
        r == (a@ == b@),
{
    let n = a.unicode_len();
    if n != b.unicode_len() {
        return false;
    }
    let mut i: usize = 0;
    while i < n
        invariant
            n == a@.len(),
            n == b@.len(),
            i <= n,
            forall|m: int| 0 <= m < i ==> a@[m] == b@[m],
        decreases n - i,
    {
        if a.get_char(i) != b.get_char(i) {
            return false;
        }
        i = i + 1;
    }
    assert(a@ =~= b@);
    true
}

/// The words `spans[from..to]` of `s`, joined with single spaces.
pub fn join_spans(s: &str, spans: &Vec<(usize, usize)>, from: usize, to: usize) -> (r: String)
    requires
        from <= to <= spans@.len(),
        forall|k: int| 0 <= k < spans@.len() ==> (#[trigger] spans@[k]).0 <= spans@[k].1 <= s@.len(),
    ensures
        r@ == join_words(span_texts(s@, spans@).subrange(from as int, to as int)),
{
    let ghost ws = span_texts(s@, spans@);
    let mut out = String::new();
    let mut k: usize = from;
    while k < to
        invariant
            from <= k <= to <= spans@.len(),
            ws == span_texts(s@, spans@),
            forall|m: int| 0 <= m < spans@.len() ==> (#[trigger] spans@[m]).0 <= spans@[m].1 <= s@.len(),
            out@ == join_words(ws.subrange(from as int, k as int)),
        decreases to - k,
    {
        let (a, b) = spans[k];
        if k > from {
            out.append(" ");
            proof {
                reveal_strlit(" ");
            }
        }
        out.append(s.substring_char(a, b));
        proof {
            let next = ws.subrange(from as int, k + 1);
            assert(next.drop_last() =~= ws.subrange(from as int, k as int));
            assert(next.last() == s@.subrange(a as int, b as int));
            if k == from {
                assert(out@ =~= next[0]);
            } else {
                assert(out@ =~= join_words(next.drop_last()) + seq![' '] + next.last());
            }
        }
        k = k + 1;
    }
    out
}

} // verus!
